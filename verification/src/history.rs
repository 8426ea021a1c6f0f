//! Organizer history: the immutable record of an executed plan and of the
//! recoveries made afterwards, with the checks every record must pass.

use vstd::prelude::*;
use crate::operation_plan::OperationSyncPreference;
use crate::rating_rules::{RatingRule, RuleMemberKind};
use crate::safety::texts;
use crate::text::{
    chars_eq, chars_of, concat, decimal, decimal_text, is_blank, is_blank_str, lemma_text_lt_total,
    lemma_text_lt_transitive, text_less, text_lt,
};

verus! {

/// Version of the history records this library writes and reads.
pub const HISTORY_VERSION: u8 = 1;

#[derive(Debug, Clone, Copy, PartialEq, Eq, Structural)]
pub enum OrganizerAction {
    Copy,
    Move,
    Quarantine,
    Trash,
}

#[derive(Debug, Clone, Copy, PartialEq, Eq, Structural)]
pub enum OrganizerGroupStatus {
    Success,
    Failed,
    Partial,
    Skipped,
}

/// Size, time and content hash of a file written by the organizer.
#[derive(Debug)]
pub struct FileFingerprint {
    pub size_bytes: u64,
    pub modified_ms: Option<u64>,
    pub sha256: String,
}

#[derive(Debug)]
pub struct OperationMemberRecord {
    pub kind: RuleMemberKind,
    pub source_path: String,
    pub target_path: String,
    pub expected_size_bytes: u64,
    pub expected_modified_ms: Option<u64>,
    pub target_snapshot: Option<FileFingerprint>,
    pub message: String,
}

#[derive(Debug)]
pub struct OperationGroupRecord {
    pub group_id: String,
    pub relative_stem: String,
    pub action: OrganizerAction,
    pub status: OrganizerGroupStatus,
    pub message: String,
    pub members: Vec<OperationMemberRecord>,
}

/// The record of one executed plan.
#[derive(Debug)]
pub struct OperationManifest {
    pub version: u8,
    pub operation_id: String,
    pub plan_id: String,
    pub root: String,
    pub created_at_ms: u64,
    pub rules: Vec<RatingRule>,
    pub sync: OperationSyncPreference,
    pub groups: Vec<OperationGroupRecord>,
}

impl OperationManifest {
    /// A manifest of the current version.
    pub fn new(
        operation_id: String,
        plan_id: String,
        root: String,
        created_at_ms: u64,
        rules: Vec<RatingRule>,
        sync: OperationSyncPreference,
        groups: Vec<OperationGroupRecord>,
    ) -> (r: Self)
        ensures
            r.version == HISTORY_VERSION,
            r.operation_id == operation_id,
            r.plan_id == plan_id,
            r.root == root,
            r.created_at_ms == created_at_ms,
            r.rules == rules,
            r.sync == sync,
            r.groups == groups,
    {
        OperationManifest { version: HISTORY_VERSION, operation_id, plan_id, root, created_at_ms, rules, sync, groups }
    }
}

#[derive(Debug, Clone, Copy, PartialEq, Eq, Structural)]
pub enum RecoveryKind {
    RestoreMove,
    UndoCopy,
    RestoreQuarantine,
}

#[derive(Debug)]
pub struct RecoveryMemberResult {
    pub source_path: String,
    pub target_path: String,
    pub success: bool,
    pub message: String,
}

/// One recovery (undo) of a group of an executed plan.
#[derive(Debug)]
pub struct RecoveryRecord {
    pub operation_id: String,
    pub group_id: String,
    pub kind: RecoveryKind,
    pub created_at_ms: u64,
    pub status: OrganizerGroupStatus,
    pub message: String,
    pub members: Vec<RecoveryMemberResult>,
}

#[derive(Debug)]
pub struct OperationHistoryEntry {
    pub manifest: OperationManifest,
    pub recoveries: Vec<RecoveryRecord>,
    pub recoverable_groups: usize,
}

// ---------------------------------------------------------------------------
// Identifiers
// ---------------------------------------------------------------------------
pub open spec fn id_char(c: char) -> bool {
    ('a' <= c <= 'z') || ('A' <= c <= 'Z') || ('0' <= c <= '9') || c == '-'
}

/// An operation id: not empty, ASCII letters, digits and `-` only.
pub open spec fn is_valid_id(s: Seq<char>) -> bool {
    s.len() > 0 && forall|i: int| 0 <= i < s.len() ==> id_char(#[trigger] s[i])
}

pub fn valid_id(value: &str) -> (r: bool)
    ensures
        r == is_valid_id(value@),
{
    let v = chars_of(value);
    if v.len() == 0 {
        return false;
    }
    let mut i: usize = 0;
    while i < v.len()
        invariant
            i <= v@.len(),
            v@ == value@,
            forall|k: int| 0 <= k < i ==> id_char(#[trigger] v@[k]),
        decreases v@.len() - i,
    {
        let c = v[i];
        if !(('a' <= c && c <= 'z') || ('A' <= c && c <= 'Z') || ('0' <= c && c <= '9') || c == '-') {
            assert(!id_char(v@[i as int]));
            return false;
        }
        i = i + 1;
    }
    true
}

// ---------------------------------------------------------------------------
// Manifests
// ---------------------------------------------------------------------------
pub open spec fn group_ids(groups: Seq<OperationGroupRecord>) -> Seq<Seq<char>> {
    groups.map_values(|g: OperationGroupRecord| g.group_id@)
}

/// Some group id is blank or repeats an earlier one.
pub open spec fn bad_group_ids(ids: Seq<Seq<char>>) -> bool {
    exists|i: int|
        0 <= i < ids.len() && (is_blank(#[trigger] ids[i]) || exists|j: int| 0 <= j < i && ids[j] == ids[i])
}

/// Why a manifest read from the directory `directory_name` is unusable, if it is.
pub open spec fn manifest_error(m: OperationManifest, directory_name: Seq<char>) -> Option<Seq<char>> {
    if m.version != HISTORY_VERSION {
        Some("不支持评分整理历史版本 "@ + decimal_text(m.version as nat))
    } else if m.operation_id@ != directory_name || !is_valid_id(m.operation_id@) {
        Some("评分整理历史编号与目录不一致"@)
    } else if is_blank(m.plan_id@) || is_blank(m.root@) {
        Some("评分整理历史缺少计划或根目录"@)
    } else if bad_group_ids(group_ids(m.groups@)) {
        Some("评分整理历史包含空白或重复照片组"@)
    } else {
        None
    }
}

fn has_bad_group_ids(groups: &Vec<OperationGroupRecord>) -> (r: bool)
    ensures
        r == bad_group_ids(group_ids(groups@)),
{
    let ghost ids = group_ids(groups@);
    let mut i: usize = 0;
    while i < groups.len()
        invariant
            i <= groups@.len(),
            ids == group_ids(groups@),
            forall|k: int| 0 <= k < i ==> !(is_blank(#[trigger] ids[k]) || exists|j: int| 0 <= j < k && ids[j] == ids[k]),
        decreases groups@.len() - i,
    {
        assert(ids[i as int] == groups@[i as int].group_id@);
        if is_blank_str(groups[i].group_id.as_str()) {
            return true;
        }
        let a = chars_of(groups[i].group_id.as_str());
        let mut j: usize = 0;
        while j < i
            invariant
                j <= i < groups@.len(),
                ids == group_ids(groups@),
                a@ == ids[i as int],
                forall|x: int| 0 <= x < j ==> ids[x] != ids[i as int],
            decreases i - j,
        {
            let b = chars_of(groups[j].group_id.as_str());
            assert(ids[j as int] == b@);
            if chars_eq(&a, &b) {
                return true;
            }
            j = j + 1;
        }
        i = i + 1;
    }
    false
}

/// Checks a manifest read from the directory `directory_name`.
pub fn validate_manifest(manifest: &OperationManifest, directory_name: &str) -> (r: Result<(), String>)
    ensures
        match manifest_error(*manifest, directory_name@) {
            Some(e) => r matches Err(m) && m@ == e,
            None => r is Ok,
        },
{
    if manifest.version != HISTORY_VERSION {
        let v = decimal(manifest.version as u64);
        return Err(concat("不支持评分整理历史版本 ", v.as_str()));
    }
    let id = chars_of(manifest.operation_id.as_str());
    let dir = chars_of(directory_name);
    if !chars_eq(&id, &dir) || !valid_id(manifest.operation_id.as_str()) {
        return Err("评分整理历史编号与目录不一致".to_owned());
    }
    if is_blank_str(manifest.plan_id.as_str()) || is_blank_str(manifest.root.as_str()) {
        return Err("评分整理历史缺少计划或根目录".to_owned());
    }
    if has_bad_group_ids(&manifest.groups) {
        return Err("评分整理历史包含空白或重复照片组".to_owned());
    }
    Ok(())
}

// ---------------------------------------------------------------------------
// Recoveries
// ---------------------------------------------------------------------------
/// The recovery that undoes an action; a system-trash action has none.
pub open spec fn recovery_kind_for(action: OrganizerAction) -> Option<RecoveryKind> {
    match action {
        OrganizerAction::Copy => Some(RecoveryKind::UndoCopy),
        OrganizerAction::Move => Some(RecoveryKind::RestoreMove),
        OrganizerAction::Quarantine => Some(RecoveryKind::RestoreQuarantine),
        OrganizerAction::Trash => None,
    }
}

pub fn expected_recovery_kind(action: OrganizerAction) -> (r: Option<RecoveryKind>)
    ensures
        r == recovery_kind_for(action),
{
    match action {
        OrganizerAction::Copy => Some(RecoveryKind::UndoCopy),
        OrganizerAction::Move => Some(RecoveryKind::RestoreMove),
        OrganizerAction::Quarantine => Some(RecoveryKind::RestoreQuarantine),
        OrganizerAction::Trash => None,
    }
}

/// The action of the first group with the id.
pub open spec fn group_action(groups: Seq<OperationGroupRecord>, id: Seq<char>) -> Option<OrganizerAction>
    decreases groups.len(),
{
    if groups.len() == 0 {
        None
    } else {
        let rest = group_action(groups.drop_last(), id);
        if rest is Some {
            rest
        } else if groups.last().group_id@ == id {
            Some(groups.last().action)
        } else {
            None
        }
    }
}

proof fn lemma_group_action_prefix(groups: Seq<OperationGroupRecord>, n: int, id: Seq<char>)
    requires
        0 <= n <= groups.len(),
        group_action(groups.subrange(0, n), id) is Some,
    ensures
        group_action(groups, id) == group_action(groups.subrange(0, n), id),
    decreases groups.len(),
{
    if n < groups.len() {
        assert(groups.drop_last().subrange(0, n) =~= groups.subrange(0, n));
        lemma_group_action_prefix(groups.drop_last(), n, id);
    } else {
        assert(groups.subrange(0, n) =~= groups);
    }
}

fn find_group_action(groups: &Vec<OperationGroupRecord>, id: &str) -> (r: Option<OrganizerAction>)
    ensures
        r == group_action(groups@, id@),
{
    let key = chars_of(id);
    let mut i: usize = 0;
    while i < groups.len()
        invariant
            i <= groups@.len(),
            key@ == id@,
            group_action(groups@.subrange(0, i as int), id@) is None,
        decreases groups@.len() - i,
    {
        assert(groups@.subrange(0, i + 1).drop_last() =~= groups@.subrange(0, i as int));
        let g = chars_of(groups[i].group_id.as_str());
        if chars_eq(&g, &key) {
            proof {
                lemma_group_action_prefix(groups@, i + 1, id@);
            }
            return Some(groups[i].action);
        }
        i = i + 1;
    }
    assert(groups@.subrange(0, groups@.len() as int) =~= groups@);
    None
}

/// Why a recovery does not belong to a manifest, if it does not.
pub open spec fn recovery_error(m: OperationManifest, r: RecoveryRecord) -> Option<Seq<char>> {
    if r.operation_id@ != m.operation_id@ {
        Some("恢复记录与评分整理操作不一致"@)
    } else {
        match group_action(m.groups@, r.group_id@) {
            None => Some("恢复记录指向未知照片组"@),
            Some(action) => match recovery_kind_for(action) {
                None => Some("系统回收站操作不支持应用内恢复"@),
                Some(expected) => if r.kind != expected {
                    Some("恢复记录类型与原操作不一致"@)
                } else {
                    None
                },
            },
        }
    }
}

/// The error of the first recovery, in order, that does not belong to the manifest.
pub open spec fn recoveries_error(m: OperationManifest, rs: Seq<RecoveryRecord>) -> Option<Seq<char>>
    decreases rs.len(),
{
    if rs.len() == 0 {
        None
    } else {
        let rest = recoveries_error(m, rs.drop_last());
        if rest is Some {
            rest
        } else {
            recovery_error(m, rs.last())
        }
    }
}

proof fn lemma_recoveries_error_prefix(m: OperationManifest, rs: Seq<RecoveryRecord>, n: int)
    requires
        0 <= n <= rs.len(),
        recoveries_error(m, rs.subrange(0, n)) is Some,
    ensures
        recoveries_error(m, rs) == recoveries_error(m, rs.subrange(0, n)),
    decreases rs.len(),
{
    if n < rs.len() {
        assert(rs.drop_last().subrange(0, n) =~= rs.subrange(0, n));
        lemma_recoveries_error_prefix(m, rs.drop_last(), n);
    } else {
        assert(rs.subrange(0, n) =~= rs);
    }
}

pub fn validate_recovery(manifest: &OperationManifest, recovery: &RecoveryRecord) -> (r: Result<(), String>)
    ensures
        match recovery_error(*manifest, *recovery) {
            Some(e) => r matches Err(m) && m@ == e,
            None => r is Ok,
        },
{
    let a = chars_of(recovery.operation_id.as_str());
    let b = chars_of(manifest.operation_id.as_str());
    if !chars_eq(&a, &b) {
        return Err("恢复记录与评分整理操作不一致".to_owned());
    }
    let action = match find_group_action(&manifest.groups, recovery.group_id.as_str()) {
        Some(action) => action,
        None => return Err("恢复记录指向未知照片组".to_owned()),
    };
    let expected = match expected_recovery_kind(action) {
        Some(kind) => kind,
        None => return Err("系统回收站操作不支持应用内恢复".to_owned()),
    };
    if recovery.kind != expected {
        return Err("恢复记录类型与原操作不一致".to_owned());
    }
    Ok(())
}

/// Checks that every recovery belongs to the manifest.
pub fn validate_recoveries(manifest: &OperationManifest, recoveries: &Vec<RecoveryRecord>) -> (r: Result<(), String>)
    ensures
        match recoveries_error(*manifest, recoveries@) {
            Some(e) => r matches Err(m) && m@ == e,
            None => r is Ok,
        },
{
    let mut i: usize = 0;
    while i < recoveries.len()
        invariant
            i <= recoveries@.len(),
            recoveries_error(*manifest, recoveries@.subrange(0, i as int)) is None,
        decreases recoveries@.len() - i,
    {
        assert(recoveries@.subrange(0, i + 1).drop_last() =~= recoveries@.subrange(0, i as int));
        if let Err(e) = validate_recovery(manifest, &recoveries[i]) {
            proof {
                lemma_recoveries_error_prefix(*manifest, recoveries@, i + 1);
            }
            return Err(e);
        }
        i = i + 1;
    }
    assert(recoveries@.subrange(0, recoveries@.len() as int) =~= recoveries@);
    Ok(())
}

/// Some recovery of the group succeeded already.
pub open spec fn recovered(rs: Seq<RecoveryRecord>, group_id: Seq<char>) -> bool {
    exists|i: int| 0 <= i < rs.len() && (#[trigger] rs[i]).group_id@ == group_id && rs[i].status == OrganizerGroupStatus::Success
}

/// Whether a group of the operation has already been recovered.
pub fn is_recovered(rs: &Vec<RecoveryRecord>, group_id: &str) -> (r: bool)
    ensures
        r == recovered(rs@, group_id@),
{
    let key = chars_of(group_id);
    let mut i: usize = 0;
    while i < rs.len()
        invariant
            i <= rs@.len(),
            key@ == group_id@,
            forall|k: int| 0 <= k < i ==> !((#[trigger] rs@[k]).group_id@ == group_id@ && rs@[k].status == OrganizerGroupStatus::Success),
        decreases rs@.len() - i,
    {
        let g = chars_of(rs[i].group_id.as_str());
        if chars_eq(&g, &key) && rs[i].status == OrganizerGroupStatus::Success {
            return true;
        }
        i = i + 1;
    }
    false
}

/// Why a new recovery cannot be appended to a history, if it cannot: the
/// recorded ones and the new one must belong to the manifest, and a group
/// is recovered at most once successfully.
pub open spec fn append_error(m: OperationManifest, existing: Seq<RecoveryRecord>, recovery: RecoveryRecord) -> Option<Seq<char>> {
    if recoveries_error(m, existing) is Some {
        recoveries_error(m, existing)
    } else if recovery_error(m, recovery) is Some {
        recovery_error(m, recovery)
    } else if recovered(existing, recovery.group_id@) {
        Some("该照片组已经完成恢复或撤销"@)
    } else {
        None
    }
}

pub fn check_recovery_append(manifest: &OperationManifest, existing: &Vec<RecoveryRecord>, recovery: &RecoveryRecord) -> (r: Result<(), String>)
    ensures
        match append_error(*manifest, existing@, *recovery) {
            Some(e) => r matches Err(m) && m@ == e,
            None => r is Ok,
        },
{
    validate_recoveries(manifest, existing)?;
    validate_recovery(manifest, recovery)?;
    if is_recovered(existing, recovery.group_id.as_str()) {
        return Err("该照片组已经完成恢复或撤销".to_owned());
    }
    Ok(())
}

/// A group can still be recovered: it succeeded (fully or partly), its
/// action has a recovery, and no recovery of it succeeded yet.
pub open spec fn group_recoverable(g: OperationGroupRecord, rs: Seq<RecoveryRecord>) -> bool {
    (g.status == OrganizerGroupStatus::Success || g.status == OrganizerGroupStatus::Partial)
        && recovery_kind_for(g.action) is Some && !recovered(rs, g.group_id@)
}

pub open spec fn recoverable_groups(groups: Seq<OperationGroupRecord>, rs: Seq<RecoveryRecord>) -> nat
    decreases groups.len(),
{
    if groups.len() == 0 {
        0
    } else {
        recoverable_groups(groups.drop_last(), rs) + if group_recoverable(groups.last(), rs) {
            1nat
        } else {
            0nat
        }
    }
}

/// Number of groups of a manifest that can still be recovered.
pub fn recoverable_count(manifest: &OperationManifest, recoveries: &Vec<RecoveryRecord>) -> (r: usize)
    ensures
        r == recoverable_groups(manifest.groups@, recoveries@),
{
    let mut n: usize = 0;
    let mut i: usize = 0;
    while i < manifest.groups.len()
        invariant
            i <= manifest.groups@.len(),
            n == recoverable_groups(manifest.groups@.subrange(0, i as int), recoveries@),
            n <= i,
        decreases manifest.groups@.len() - i,
    {
        assert(manifest.groups@.subrange(0, i + 1).drop_last() =~= manifest.groups@.subrange(0, i as int));
        let g = &manifest.groups[i];
        if (g.status == OrganizerGroupStatus::Success || g.status == OrganizerGroupStatus::Partial)
            && expected_recovery_kind(g.action).is_some() && !is_recovered(recoveries, g.group_id.as_str()) {
            n = n + 1;
        }
        i = i + 1;
    }
    assert(manifest.groups@.subrange(0, manifest.groups@.len() as int) =~= manifest.groups@);
    n
}

// ---------------------------------------------------------------------------
// Listing order
// ---------------------------------------------------------------------------
/// `a` is listed after `b`: it is older, or as old with a smaller operation id.
pub open spec fn listed_after(a: OperationHistoryEntry, b: OperationHistoryEntry) -> bool {
    ||| a.manifest.created_at_ms < b.manifest.created_at_ms
    ||| (a.manifest.created_at_ms == b.manifest.created_at_ms && text_lt(a.manifest.operation_id@, b.manifest.operation_id@))
}

/// Newest first, then by operation id from the largest.
pub open spec fn newest_first(s: Seq<OperationHistoryEntry>) -> bool {
    forall|i: int, j: int| 0 <= i < j < s.len() ==> !listed_after(#[trigger] s[i], #[trigger] s[j])
}

proof fn lemma_listed_after_order(a: OperationHistoryEntry, b: OperationHistoryEntry, c: OperationHistoryEntry)
    ensures
        !(listed_after(a, b) && listed_after(b, a)),
        listed_after(a, b) && listed_after(b, c) ==> listed_after(a, c),
{
    lemma_text_lt_total(a.manifest.operation_id@, b.manifest.operation_id@);
    if listed_after(a, b) && listed_after(b, c) {
        if a.manifest.created_at_ms == b.manifest.created_at_ms && b.manifest.created_at_ms == c.manifest.created_at_ms {
            lemma_text_lt_transitive(a.manifest.operation_id@, b.manifest.operation_id@, c.manifest.operation_id@);
        }
    }
}

fn entry_after(a: &OperationHistoryEntry, b: &OperationHistoryEntry) -> (r: bool)
    ensures
        r == listed_after(*a, *b),
{
    if a.manifest.created_at_ms != b.manifest.created_at_ms {
        return a.manifest.created_at_ms < b.manifest.created_at_ms;
    }
    let x = chars_of(a.manifest.operation_id.as_str());
    let y = chars_of(b.manifest.operation_id.as_str());
    text_less(&x, &y)
}

/// Orders history entries newest first (ties by operation id, largest first).
pub fn order_history(entries: Vec<OperationHistoryEntry>) -> (r: Vec<OperationHistoryEntry>)
    ensures
        r@.to_multiset() == entries@.to_multiset(),
        newest_first(r@),
{
    broadcast use vstd::seq_lib::group_to_multiset_ensures;
    let ghost original = entries@;
    let mut rest = entries;
    let mut out: Vec<OperationHistoryEntry> = Vec::new();
    while rest.len() > 0
        invariant
            out@.to_multiset().add(rest@.to_multiset()) == original.to_multiset(),
            newest_first(out@),
        decreases rest@.len(),
    {
        let ghost before_rest = rest@;
        let ghost before_out = out@;
        let x = rest.pop().unwrap();
        proof {
            assert(before_rest =~= rest@.push(x));
        }
        let mut p: usize = 0;
        while p < out.len()
            invariant
                p <= out@.len(),
                out@ == before_out,
                forall|k: int| 0 <= k < p ==> !listed_after(#[trigger] out@[k], x),
            ensures
                p <= out@.len(),
                out@ == before_out,
                forall|k: int| 0 <= k < p ==> !listed_after(#[trigger] out@[k], x),
                p < out@.len() ==> listed_after(out@[p as int], x),
            decreases out@.len() - p,
        {
            if entry_after(&out[p], &x) {
                break;
            }
            p = p + 1;
        }
        out.insert(p, x);
        proof {
            broadcast use vstd::multiset::group_multiset_axioms;
            assert(out@ == before_out.insert(p as int, x));
            vstd::seq_lib::to_multiset_insert(before_out, p as int, x);
            vstd::seq_lib::to_multiset_build(rest@, x);
            assert(out@.to_multiset().add(rest@.to_multiset()) =~= before_out.to_multiset().add(before_rest.to_multiset()));
            assert forall|i: int, j: int| 0 <= i < j < out@.len() implies !listed_after(#[trigger] out@[i], #[trigger] out@[j]) by {
                if j < p {
                } else if i < p && j == p {
                } else if i < p && j > p {
                    assert(out@[j] == before_out[j - 1]);
                } else if i == p {
                    let q = j - 1;
                    assert(out@[j] == before_out[q]);
                    lemma_listed_after_order(before_out[p as int], x, before_out[q]);
                    lemma_listed_after_order(x, before_out[p as int], before_out[q]);
                    if q > p {
                        assert(!listed_after(before_out[p as int], before_out[q]));
                    }
                } else {
                    assert(out@[i] == before_out[i - 1]);
                    assert(out@[j] == before_out[j - 1]);
                }
            }
        }
    }
    out
}

/// Only a successful recovery marks a group as recovered: adding a recovery
/// record that did not succeed leaves the number of recoverable groups as it
/// was.
pub proof fn failed_recoveries_leave_groups_recoverable(groups: Seq<OperationGroupRecord>, rs: Seq<RecoveryRecord>, failed: RecoveryRecord)
    requires
        failed.status != OrganizerGroupStatus::Success,
    ensures
        recoverable_groups(groups, rs.push(failed)) == recoverable_groups(groups, rs),
    decreases groups.len(),
{
    if groups.len() > 0 {
        failed_recoveries_leave_groups_recoverable(groups.drop_last(), rs, failed);
        let g = groups.last();
        let t = rs.push(failed);
        if recovered(t, g.group_id@) {
            let i = choose|i: int| 0 <= i < t.len() && (#[trigger] t[i]).group_id@ == g.group_id@ && t[i].status == OrganizerGroupStatus::Success;
            assert(i < rs.len());
            assert(rs[i] == t[i]);
        }
        if recovered(rs, g.group_id@) {
            let i = choose|i: int| 0 <= i < rs.len() && (#[trigger] rs[i]).group_id@ == g.group_id@ && rs[i].status == OrganizerGroupStatus::Success;
            assert(t[i] == rs[i]);
        }
    }
}

/// A new recovery of a group is accepted as long as no recovery of it has
/// succeeded: records of failed attempts do not block a retry, and one
/// successful record does.
pub proof fn only_successful_recoveries_block_a_retry(m: OperationManifest, rs: Seq<RecoveryRecord>, recovery: RecoveryRecord)
    requires
        recoveries_error(m, rs) is None,
        recovery_error(m, recovery) is None,
    ensures
        (forall|i: int| 0 <= i < rs.len() && (#[trigger] rs[i]).group_id@ == recovery.group_id@ ==> rs[i].status
            != OrganizerGroupStatus::Success) ==> append_error(m, rs, recovery) is None,
        (exists|i: int| 0 <= i < rs.len() && (#[trigger] rs[i]).group_id@ == recovery.group_id@ && rs[i].status
            == OrganizerGroupStatus::Success) ==> append_error(m, rs, recovery) == Some("该照片组已经完成恢复或撤销"@),
{
}

} // verus!
