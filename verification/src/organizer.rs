//! Organizer execution decisions: what a group's record says after it was
//! copied, moved, quarantined or failed, and how a run is summarised. The
//! file operations themselves happen outside; these functions decide what
//! their outcomes mean.

use vstd::prelude::*;
use crate::history::{
    expected_recovery_kind, recovery_kind_for, RecoveryKind, RecoveryMemberResult, FileFingerprint, OperationGroupRecord, OperationMemberRecord, OrganizerAction, OrganizerGroupStatus,
};
use crate::operation_plan::{OperationPlanItem, PlannedMember, member_views};
use crate::rating_rules::{RatingRule, RuleAction, RuleMemberKind, opt_text};
use crate::safety::texts;
use crate::text::{
    chars_eq, chars_of, concat, concat3, decimal, decimal_text, forward_slash_string, forward_slashes, is_blank,
    is_blank_str,
};
use crate::paths::{
    all_normal, all_normal_chars, is_absolute, join_path, parent_segment_at, path_has_prefix, path_join, path_starts_with, paths_equal,
    same_path,
};

verus! {

/// A plan member checked against the file system: where it is and where it goes.
#[derive(Debug)]
pub struct ValidatedMember {
    pub kind: RuleMemberKind,
    pub source: String,
    pub target: String,
    pub expected_size_bytes: u64,
    pub expected_modified_ms: Option<u64>,
}

pub struct FingerprintView {
    pub size_bytes: u64,
    pub modified_ms: Option<u64>,
    pub sha256: Seq<char>,
}

pub open spec fn fingerprint_view(f: FileFingerprint) -> FingerprintView {
    FingerprintView { size_bytes: f.size_bytes, modified_ms: f.modified_ms, sha256: f.sha256@ }
}

pub struct MemberRecordView {
    pub kind: RuleMemberKind,
    pub source: Seq<char>,
    pub target: Seq<char>,
    pub expected_size_bytes: u64,
    pub expected_modified_ms: Option<u64>,
    pub snapshot: Option<FingerprintView>,
    pub message: Seq<char>,
}

pub open spec fn record_view(r: OperationMemberRecord) -> MemberRecordView {
    MemberRecordView {
        kind: r.kind,
        source: r.source_path@,
        target: r.target_path@,
        expected_size_bytes: r.expected_size_bytes,
        expected_modified_ms: r.expected_modified_ms,
        snapshot: match r.target_snapshot {
            Some(f) => Some(fingerprint_view(f)),
            None => None,
        },
        message: r.message@,
    }
}

pub open spec fn record_views(s: Seq<OperationMemberRecord>) -> Seq<MemberRecordView> {
    s.map_values(|r: OperationMemberRecord| record_view(r))
}

pub struct GroupView {
    pub group_id: Seq<char>,
    pub relative_stem: Seq<char>,
    pub action: OrganizerAction,
    pub status: OrganizerGroupStatus,
    pub message: Seq<char>,
    pub members: Seq<MemberRecordView>,
}

pub open spec fn group_view(g: OperationGroupRecord) -> GroupView {
    GroupView {
        group_id: g.group_id@,
        relative_stem: g.relative_stem@,
        action: g.action,
        status: g.status,
        message: g.message@,
        members: record_views(g.members@),
    }
}

/// The record of a member whose target was written and fingerprinted.
pub fn record_for_committed_member(member: &ValidatedMember, snapshot: FileFingerprint, message: &str) -> (r: OperationMemberRecord)
    ensures
        record_view(r) == (MemberRecordView {
            kind: member.kind,
            source: forward_slashes(member.source@),
            target: forward_slashes(member.target@),
            expected_size_bytes: member.expected_size_bytes,
            expected_modified_ms: member.expected_modified_ms,
            snapshot: Some(fingerprint_view(snapshot)),
            message: message@,
        }),
{
    OperationMemberRecord {
        kind: member.kind,
        source_path: forward_slash_string(member.source.as_str()),
        target_path: forward_slash_string(member.target.as_str()),
        expected_size_bytes: member.expected_size_bytes,
        expected_modified_ms: member.expected_modified_ms,
        target_snapshot: Some(snapshot),
        message: message.to_owned(),
    }
}

/// The record of a group that ended with `status`.
pub fn relocation_result_group(
    item: &OperationPlanItem,
    action: OrganizerAction,
    status: OrganizerGroupStatus,
    message: String,
    members: Vec<OperationMemberRecord>,
) -> (r: OperationGroupRecord)
    ensures
        group_view(r) == (GroupView {
            group_id: item.group_id@,
            relative_stem: item.relative_stem@,
            action,
            status,
            message: message@,
            members: record_views(members@),
        }),
{
    OperationGroupRecord {
        group_id: item.group_id.clone(),
        relative_stem: item.relative_stem.clone(),
        action,
        status,
        message,
        members,
    }
}

/// The record of a moved group.
pub fn move_result_group(
    item: &OperationPlanItem,
    status: OrganizerGroupStatus,
    message: String,
    members: Vec<OperationMemberRecord>,
) -> (r: OperationGroupRecord)
    ensures
        group_view(r) == (GroupView {
            group_id: item.group_id@,
            relative_stem: item.relative_stem@,
            action: OrganizerAction::Move,
            status,
            message: message@,
            members: record_views(members@),
        }),
{
    relocation_result_group(item, OrganizerAction::Move, status, message, members)
}

/// How a failed group records one of its planned members.
pub open spec fn failed_member(m: PlannedMember, error: Seq<char>) -> MemberRecordView {
    MemberRecordView {
        kind: m.kind,
        source: m.source_relative_path@,
        target: match m.target_path {
            Some(t) => t@,
            None => seq![],
        },
        expected_size_bytes: m.size_bytes,
        expected_modified_ms: m.modified_ms,
        snapshot: None,
        message: error,
    }
}

/// The record of a group that failed as a whole: every planned member
/// carries the error.
pub fn failed_group(item: &OperationPlanItem, action: OrganizerAction, error: String) -> (r: OperationGroupRecord)
    ensures
        group_view(r) == (GroupView {
            group_id: item.group_id@,
            relative_stem: item.relative_stem@,
            action,
            status: OrganizerGroupStatus::Failed,
            message: error@,
            members: item.members@.map_values(|m: PlannedMember| failed_member(m, error@)),
        }),
{
    let mut members: Vec<OperationMemberRecord> = Vec::new();
    let mut i: usize = 0;
    while i < item.members.len()
        invariant
            i <= item.members@.len(),
            record_views(members@) == item.members@.subrange(0, i as int).map_values(
                |m: PlannedMember| failed_member(m, error@),
            ),
        decreases item.members@.len() - i,
    {
        let m = &item.members[i];
        let record = OperationMemberRecord {
            kind: m.kind,
            source_path: m.source_relative_path.clone(),
            target_path: match &m.target_path {
                Some(t) => t.clone(),
                None => String::new(),
            },
            expected_size_bytes: m.size_bytes,
            expected_modified_ms: m.modified_ms,
            target_snapshot: None,
            message: error.clone(),
        };
        let ghost before = record_views(members@);
        members.push(record);
        proof {
            assert(record_views(members@) =~= before.push(failed_member(*m, error@)));
            assert(item.members@.subrange(0, i + 1).map_values(|m: PlannedMember| failed_member(m, error@))
                =~= item.members@.subrange(0, i as int).map_values(|m: PlannedMember| failed_member(m, error@)).push(
                failed_member(*m, error@),
            ));
        }
        i = i + 1;
    }
    assert(item.members@.subrange(0, item.members@.len() as int) =~= item.members@);
    OperationGroupRecord {
        group_id: item.group_id.clone(),
        relative_stem: item.relative_stem.clone(),
        action,
        status: OrganizerGroupStatus::Failed,
        message: error,
        members,
    }
}

/// Texts joined with `；`.
pub open spec fn joined_failures(s: Seq<Seq<char>>) -> Seq<char>
    decreases s.len(),
{
    if s.len() == 0 {
        seq![]
    } else if s.len() == 1 {
        s[0]
    } else {
        joined_failures(s.drop_last()) + "；"@ + s.last()
    }
}

pub fn join_failures(failures: &Vec<String>) -> (r: String)
    ensures
        r@ == joined_failures(texts(failures@)),
{
    let ghost fv = texts(failures@);
    if failures.len() == 0 {
        return String::new();
    }
    let mut out = failures[0].clone();
    let mut i: usize = 1;
    assert(fv.subrange(0, 1).len() == 1);
    while i < failures.len()
        invariant
            1 <= i <= failures@.len(),
            fv == texts(failures@),
            out@ == joined_failures(fv.subrange(0, i as int)),
        decreases failures@.len() - i,
    {
        assert(fv.subrange(0, i + 1).drop_last() =~= fv.subrange(0, i as int));
        out.append("；");
        out.append(failures[i].as_str());
        i = i + 1;
    }
    assert(fv.subrange(0, failures@.len() as int) =~= fv);
    out
}

/// The record of a group whose step failed after its earlier steps were
/// undone: a failed group with `clean_message` when the undo was complete,
/// else a partial group keeping the committed records, with
/// `dirty_prefix` followed by the undo failures.
pub fn group_after_rollback(
    item: &OperationPlanItem,
    action: OrganizerAction,
    clean_message: String,
    dirty_prefix: &str,
    rollback_failures: &Vec<String>,
    records: Vec<OperationMemberRecord>,
) -> (r: OperationGroupRecord)
    ensures
        rollback_failures@.len() == 0 ==> group_view(r) == (GroupView {
            group_id: item.group_id@,
            relative_stem: item.relative_stem@,
            action,
            status: OrganizerGroupStatus::Failed,
            message: clean_message@,
            members: item.members@.map_values(|m: PlannedMember| failed_member(m, clean_message@)),
        }),
        rollback_failures@.len() > 0 ==> group_view(r) == (GroupView {
            group_id: item.group_id@,
            relative_stem: item.relative_stem@,
            action,
            status: OrganizerGroupStatus::Partial,
            message: dirty_prefix@ + joined_failures(texts(rollback_failures@)),
            members: record_views(records@),
        }),
{
    if rollback_failures.len() == 0 {
        failed_group(item, action, clean_message)
    } else {
        let joined = join_failures(rollback_failures);
        let message = concat(dirty_prefix, joined.as_str());
        relocation_result_group(item, action, OrganizerGroupStatus::Partial, message, records)
    }
}

/// The record of a group whose members were all moved.
pub fn moved_group(item: &OperationPlanItem, action: OrganizerAction, records: Vec<OperationMemberRecord>) -> (r: OperationGroupRecord)
    ensures
        group_view(r) == (GroupView {
            group_id: item.group_id@,
            relative_stem: item.relative_stem@,
            action,
            status: OrganizerGroupStatus::Success,
            message: "已原子移动 "@ + decimal_text(records@.len() as nat) + " 个文件"@,
            members: record_views(records@),
        }),
{
    let n = decimal(records.len() as u64);
    let message = concat3("已原子移动 ", n.as_str(), " 个文件");
    relocation_result_group(item, action, OrganizerGroupStatus::Success, message, records)
}

/// A source is still the file the plan saw: a regular file, not a link, with
/// the planned size and modification time.
pub open spec fn source_unchanged(is_symlink: bool, is_file: bool, size_bytes: u64, modified_ms: Option<u64>, member: ValidatedMember) -> bool {
    !is_symlink && is_file && size_bytes == member.expected_size_bytes && modified_ms == member.expected_modified_ms
}

pub fn source_matches(is_symlink: bool, is_file: bool, size_bytes: u64, modified_ms: Option<u64>, member: &ValidatedMember) -> (r: bool)
    ensures
        r == source_unchanged(is_symlink, is_file, size_bytes, modified_ms, *member),
{
    !is_symlink && is_file && size_bytes == member.expected_size_bytes && modified_ms == member.expected_modified_ms
}

/// A group record after the rating writes at its destination failed: a
/// copied or moved group that succeeded (fully or partly) becomes partial,
/// with the error appended to its message; other groups are unchanged.
pub fn with_sync_failure(group: OperationGroupRecord, error: &str) -> (r: OperationGroupRecord)
    ensures
        ((group.action == OrganizerAction::Copy || group.action == OrganizerAction::Move) && (group.status
            == OrganizerGroupStatus::Success || group.status == OrganizerGroupStatus::Partial)) ==> group_view(r)
            == (GroupView {
            status: OrganizerGroupStatus::Partial,
            message: group.message@ + "；评分同步未完成："@ + error@,
            ..group_view(group)
        }),
        !((group.action == OrganizerAction::Copy || group.action == OrganizerAction::Move) && (group.status
            == OrganizerGroupStatus::Success || group.status == OrganizerGroupStatus::Partial)) ==> group_view(r)
            == group_view(group),
{
    let mut g = group;
    if (g.action == OrganizerAction::Copy || g.action == OrganizerAction::Move) && (g.status
        == OrganizerGroupStatus::Success || g.status == OrganizerGroupStatus::Partial) {
        g.status = OrganizerGroupStatus::Partial;
        g.message = concat3(g.message.as_str(), "；评分同步未完成：", error);
    }
    g
}

/// The error of a run whose history could not be saved, with the undo
/// failures of its file operations, if any.
pub fn persist_failure_message(error: &str, rollback_failures: &Vec<String>) -> (r: String)
    ensures
        rollback_failures@.len() == 0 ==> r@ == error@,
        rollback_failures@.len() > 0 ==> r@ == error@ + "；文件操作回滚失败："@ + joined_failures(texts(rollback_failures@)),
{
    if rollback_failures.len() == 0 {
        return error.to_owned();
    }
    let joined = join_failures(rollback_failures);
    concat3(error, "；文件操作回滚失败：", joined.as_str())
}

/// The organizer action a plan item's terminal action is executed as.
pub open spec fn rule_applies(rule: RatingRule, ids: Seq<Seq<char>>, action: RuleAction) -> bool {
    ids.contains(rule.id@) && rule.action == action
}

/// Why the executing rule of an item cannot be found, if it cannot: the
/// item needs a terminal action, and exactly one of its matched rules with
/// that action.
pub open spec fn matching_rule_error(rules: Seq<RatingRule>, ids: Seq<Seq<char>>, action: Option<RuleAction>) -> Option<Seq<char>> {
    match action {
        None => Some("照片组没有最终操作"@),
        Some(a) => {
            let n = count_applying(rules, ids, a);
            if n == 0 {
                Some("照片组的命中规则已丢失"@)
            } else if n > 1 {
                Some("照片组命中了多条执行规则"@)
            } else {
                None
            }
        },
    }
}

pub open spec fn count_applying(rules: Seq<RatingRule>, ids: Seq<Seq<char>>, action: RuleAction) -> nat
    decreases rules.len(),
{
    if rules.len() == 0 {
        0
    } else {
        count_applying(rules.drop_last(), ids, action) + if rule_applies(rules.last(), ids, action) {
            1nat
        } else {
            0nat
        }
    }
}

/// Position of the rule that executes a plan item.
pub fn matching_rule(rules: &Vec<RatingRule>, item: &OperationPlanItem) -> (r: Result<usize, String>)
    ensures
        match matching_rule_error(rules@, texts(item.matched_rule_ids@), item.terminal_action) {
            Some(e) => r matches Err(m) && m@ == e,
            None => r matches Ok(i) && i < rules@.len() && rule_applies(
                rules@[i as int],
                texts(item.matched_rule_ids@),
                item.terminal_action->0,
            ),
        },
{
    let action = match item.terminal_action {
        Some(a) => a,
        None => return Err("照片组没有最终操作".to_owned()),
    };
    let ghost ids = texts(item.matched_rule_ids@);
    let mut found: Option<usize> = None;
    let mut count: usize = 0;
    let mut i: usize = 0;
    while i < rules.len()
        invariant
            i <= rules@.len(),
            ids == texts(item.matched_rule_ids@),
            count == count_applying(rules@.subrange(0, i as int), ids, action),
            count <= i,
            count == 0 <==> found is None,
            found matches Some(f) ==> f < i && rule_applies(rules@[f as int], ids, action),
        decreases rules@.len() - i,
    {
        assert(rules@.subrange(0, i + 1).drop_last() =~= rules@.subrange(0, i as int));
        let applies = rules[i].action == action && crate::rating_sync::contains_text(&item.matched_rule_ids, rules[i].id.as_str());
        if applies {
            if found.is_none() {
                found = Some(i);
            }
            count = count + 1;
        }
        i = i + 1;
    }
    assert(rules@.subrange(0, rules@.len() as int) =~= rules@);
    if count == 0 {
        return Err("照片组的命中规则已丢失".to_owned());
    }
    if count > 1 {
        return Err("照片组命中了多条执行规则".to_owned());
    }
    match found {
        Some(f) => Ok(f),
        None => Err("照片组的命中规则已丢失".to_owned()),
    }
}

pub open spec fn status_total(groups: Seq<OperationGroupRecord>, status: OrganizerGroupStatus) -> nat
    decreases groups.len(),
{
    if groups.len() == 0 {
        0
    } else {
        status_total(groups.drop_last(), status) + if groups.last().status == status { 1nat } else { 0nat }
    }
}

/// The outcome of a run.
#[derive(Debug)]
pub struct OrganizerExecutionSummary {
    pub operation_id: String,
    pub plan_id: String,
    pub succeeded: usize,
    pub failed: usize,
    pub partial: usize,
    pub skipped: usize,
    pub groups: Vec<OperationGroupRecord>,
}

/// Summarises the group records of a run.
pub fn execution_summary(operation_id: String, plan_id: String, groups: Vec<OperationGroupRecord>) -> (r: OrganizerExecutionSummary)
    ensures
        r.operation_id == operation_id,
        r.plan_id == plan_id,
        r.groups == groups,
        r.succeeded == status_total(groups@, OrganizerGroupStatus::Success),
        r.failed == status_total(groups@, OrganizerGroupStatus::Failed),
        r.partial == status_total(groups@, OrganizerGroupStatus::Partial),
        r.skipped == status_total(groups@, OrganizerGroupStatus::Skipped),
{
    let mut s: usize = 0;
    let mut f: usize = 0;
    let mut p: usize = 0;
    let mut k: usize = 0;
    let mut i: usize = 0;
    while i < groups.len()
        invariant
            i <= groups@.len(),
            s == status_total(groups@.subrange(0, i as int), OrganizerGroupStatus::Success),
            f == status_total(groups@.subrange(0, i as int), OrganizerGroupStatus::Failed),
            p == status_total(groups@.subrange(0, i as int), OrganizerGroupStatus::Partial),
            k == status_total(groups@.subrange(0, i as int), OrganizerGroupStatus::Skipped),
            s + f + p + k == i,
        decreases groups@.len() - i,
    {
        assert(groups@.subrange(0, i + 1).drop_last() =~= groups@.subrange(0, i as int));
        match groups[i].status {
            OrganizerGroupStatus::Success => s = s + 1,
            OrganizerGroupStatus::Failed => f = f + 1,
            OrganizerGroupStatus::Partial => p = p + 1,
            OrganizerGroupStatus::Skipped => k = k + 1,
        }
        i = i + 1;
    }
    assert(groups@.subrange(0, groups@.len() as int) =~= groups@);
    OrganizerExecutionSummary { operation_id, plan_id, succeeded: s, failed: f, partial: p, skipped: k, groups }
}

// ---------------------------------------------------------------------------
// Validating members before execution
// ---------------------------------------------------------------------------
/// What `symlink_metadata` says of a path.
#[derive(Debug, Clone, Copy, PartialEq, Eq, Structural)]
pub struct EntryState {
    pub is_symlink: bool,
    pub is_file: bool,
    pub size_bytes: u64,
    pub modified_ms: Option<u64>,
}

/// What the file system says of a member's source: its entry and its
/// canonical path, each or the error text met reading it.
#[derive(Debug)]
pub struct SourceProbe {
    pub state: Result<EntryState, String>,
    pub canonical: Result<String, String>,
}

/// A member path is usable when it is a non-empty relative path made of
/// normal components.
pub open spec fn member_path_ok(p: Seq<char>) -> bool {
    p.len() > 0 && all_normal(p)
}

pub open spec fn text_of(r: Result<String, String>) -> Result<Seq<char>, Seq<char>> {
    match r {
        Ok(x) => Ok(x@),
        Err(e) => Err(e@),
    }
}

/// Why a member's source is not the file the plan saw, if it is not; the
/// labels differ between members to move or copy and members to clean up.
pub open spec fn source_error(root: Seq<char>, m: PlannedMember, probe: SourceProbe, cleanup: bool) -> Option<Seq<char>> {
    let source = path_join(root, m.source_relative_path@);
    let shown = forward_slashes(source);
    if !member_path_ok(m.source_relative_path@) {
        Some("照片成员路径不是安全相对路径"@)
    } else {
        match probe.state {
            Err(e) => Some((if cleanup { "待清理文件不可访问 "@ } else { "源文件不可访问 "@ }) + shown + "："@ + e@),
            Ok(st) => if st.is_symlink || !st.is_file {
                Some((if cleanup { "待清理路径不是可信普通文件："@ } else { "源路径不是可信普通文件："@ }) + shown)
            } else {
                match probe.canonical {
                    Err(e) => Some((if cleanup { "无法校验待清理文件 "@ } else { "无法校验源文件 "@ }) + shown + "："@ + e@),
                    Ok(c) => if !same_path(c@, source) || !path_has_prefix(c@, root) {
                        Some(if cleanup { "待清理文件解析后超出了照片根目录"@ } else { "源文件解析后超出了照片根目录"@ })
                    } else if st.size_bytes != m.size_bytes || st.modified_ms != m.modified_ms {
                        Some((if cleanup { "待清理文件在生成计划后发生变化："@ } else { "源文件在生成计划后发生变化："@ }) + m.source_relative_path@)
                    } else {
                        None
                    },
                }
            },
        }
    }
}

fn check_source(root: &str, member: &PlannedMember, probe: &SourceProbe, cleanup: bool) -> (r: Result<String, String>)
    ensures
        match source_error(root@, *member, *probe, cleanup) {
            Some(e) => r matches Err(m) && m@ == e,
            None => r matches Ok(p) && p@ == path_join(root@, member.source_relative_path@),
        },
{
    let rel = chars_of(member.source_relative_path.as_str());
    if rel.len() == 0 || !all_normal_chars(&rel) {
        return Err("照片成员路径不是安全相对路径".to_owned());
    }
    let source = join_path(root, member.source_relative_path.as_str());
    let shown = forward_slash_string(source.as_str());
    let state = match &probe.state {
        Err(e) => {
            let head = if cleanup { "待清理文件不可访问 " } else { "源文件不可访问 " };
            let m = concat3(head, shown.as_str(), "：");
            return Err(concat(m.as_str(), e.as_str()));
        },
        Ok(st) => *st,
    };
    if state.is_symlink || !state.is_file {
        let head = if cleanup { "待清理路径不是可信普通文件：" } else { "源路径不是可信普通文件：" };
        return Err(concat(head, shown.as_str()));
    }
    let canonical = match &probe.canonical {
        Err(e) => {
            let head = if cleanup { "无法校验待清理文件 " } else { "无法校验源文件 " };
            let m = concat3(head, shown.as_str(), "：");
            return Err(concat(m.as_str(), e.as_str()));
        },
        Ok(c) => c,
    };
    if !paths_equal(canonical.as_str(), source.as_str()) || !path_starts_with(canonical.as_str(), root) {
        return Err(if cleanup { "待清理文件解析后超出了照片根目录".to_owned() } else { "源文件解析后超出了照片根目录".to_owned() });
    }
    if state.size_bytes != member.size_bytes || state.modified_ms != member.modified_ms {
        let head = if cleanup { "待清理文件在生成计划后发生变化：" } else { "源文件在生成计划后发生变化：" };
        return Err(concat(head, member.source_relative_path.as_str()));
    }
    Ok(source)
}

/// Why a member to copy or move cannot run, if it cannot: its source must be
/// unchanged, it must have a target, and the target must pass the check
/// made on the file system (`target_check`: the target lies strictly inside
/// the destination, does not exist, and its existing ancestors are plain
/// directories).
pub open spec fn member_error(root: Seq<char>, m: PlannedMember, probe: SourceProbe, target_check: Result<(), String>) -> Option<Seq<char>> {
    match source_error(root, m, probe, false) {
        Some(e) => Some(e),
        None => match m.target_path {
            None => Some("复制或移动成员缺少目标路径"@),
            Some(_) => match target_check {
                Err(e) => Some(e@),
                Ok(()) => None,
            },
        },
    }
}

/// Checks a member to copy or move against what the plan saw.
pub fn validate_member(root: &str, member: &PlannedMember, probe: &SourceProbe, target_check: &Result<(), String>) -> (r: Result<ValidatedMember, String>)
    ensures
        match member_error(root@, *member, *probe, *target_check) {
            Some(e) => r matches Err(m) && m@ == e,
            None => r matches Ok(v) && v.kind == member.kind && v.source@ == path_join(root@, member.source_relative_path@)
                && v.target@ == member.target_path->0@ && v.expected_size_bytes == member.size_bytes
                && v.expected_modified_ms == member.modified_ms,
        },
{
    let source = check_source(root, member, probe, false)?;
    let target = match &member.target_path {
        None => {
            return Err("复制或移动成员缺少目标路径".to_owned());
        },
        Some(t) => t.clone(),
    };
    match target_check {
        Err(e) => {
            return Err(e.clone());
        },
        Ok(()) => {},
    }
    Ok(ValidatedMember {
        kind: member.kind,
        source,
        target,
        expected_size_bytes: member.size_bytes,
        expected_modified_ms: member.modified_ms,
    })
}

/// A target lies strictly inside the destination: `target_check` begins
/// with this, on absolute paths.
pub open spec fn target_inside(destination: Seq<char>, target: Seq<char>) -> bool {
    is_absolute(target) && path_has_prefix(target, destination) && !same_path(target, destination)
}

/// The first step of a target check.
pub fn check_target_inside(destination: &str, target: &str) -> (r: Result<(), String>)
    ensures
        r is Ok <==> target_inside(destination@, target@),
        r matches Err(e) ==> e@ == "目标路径超出了规则目标目录"@,
{
    let t = chars_of(target);
    if !(t.len() > 0 && t[0] == '/') || !path_starts_with(target, destination) || paths_equal(target, destination) {
        return Err("目标路径超出了规则目标目录".to_owned());
    }
    Ok(())
}

/// The first member that fails, if any, among the first `n`; an empty group
/// fails as a whole.
pub open spec fn group_error(root: Seq<char>, members: Seq<PlannedMember>, probes: Seq<SourceProbe>, checks: Seq<Result<(), String>>, n: nat) -> Option<Seq<char>>
    decreases n,
{
    if n == 0 {
        None
    } else {
        match group_error(root, members, probes, checks, (n - 1) as nat) {
            Some(e) => Some(e),
            None => member_error(root, members[n - 1], probes[n - 1], checks[n - 1]),
        }
    }
}

/// Checks every member of a group to copy or move, in order; `probes` and
/// `target_checks` hold what the file system said of each member.
pub fn validate_group(
    root: &str,
    item: &OperationPlanItem,
    probes: &Vec<SourceProbe>,
    target_checks: &Vec<Result<(), String>>,
) -> (r: Result<Vec<ValidatedMember>, String>)
    requires
        probes@.len() == item.members@.len(),
        target_checks@.len() == item.members@.len(),
    ensures
        match group_error(root@, item.members@, probes@, target_checks@, item.members@.len()) {
            Some(e) => r matches Err(m) && m@ == e,
            None => if item.members@.len() == 0 {
                r matches Err(m) && m@ == "照片组没有可执行文件"@
            } else {
                r matches Ok(v) && v@.len() == item.members@.len() && forall|i: int| 0 <= i < v@.len() ==> {
                    let m = #[trigger] item.members@[i];
                    &&& v@[i].kind == m.kind
                    &&& v@[i].source@ == path_join(root@, m.source_relative_path@)
                    &&& v@[i].target@ == m.target_path->0@
                    &&& v@[i].expected_size_bytes == m.size_bytes
                    &&& v@[i].expected_modified_ms == m.modified_ms
                }
            },
        },
{
    let mut out: Vec<ValidatedMember> = Vec::new();
    let mut i: usize = 0;
    while i < item.members.len()
        invariant
            i <= item.members@.len(),
            probes@.len() == item.members@.len(),
            target_checks@.len() == item.members@.len(),
            group_error(root@, item.members@, probes@, target_checks@, i as nat) is None,
            out@.len() == i,
            forall|k: int| 0 <= k < i ==> {
                let m = #[trigger] item.members@[k];
                &&& out@[k].kind == m.kind
                &&& out@[k].source@ == path_join(root@, m.source_relative_path@)
                &&& out@[k].target@ == m.target_path->0@
                &&& out@[k].expected_size_bytes == m.size_bytes
                &&& out@[k].expected_modified_ms == m.modified_ms
            },
        decreases item.members@.len() - i,
    {
        match validate_member(root, &item.members[i], &probes[i], &target_checks[i]) {
            Err(e) => {
                proof {
                    lemma_group_error_stays(root@, item.members@, probes@, target_checks@, (i + 1) as nat, item.members@.len());
                }
                return Err(e);
            },
            Ok(v) => {
                out.push(v);
            },
        }
        i = i + 1;
    }
    if out.len() == 0 {
        return Err("照片组没有可执行文件".to_owned());
    }
    Ok(out)
}

proof fn lemma_group_error_stays(root: Seq<char>, members: Seq<PlannedMember>, probes: Seq<SourceProbe>, checks: Seq<Result<(), String>>, n: nat, m: nat)
    requires
        n <= m,
        group_error(root, members, probes, checks, n) is Some,
    ensures
        group_error(root, members, probes, checks, m) == group_error(root, members, probes, checks, n),
    decreases m,
{
    if n < m {
        lemma_group_error_stays(root, members, probes, checks, n, (m - 1) as nat);
    }
}

pub open spec fn cleanup_group_error(root: Seq<char>, members: Seq<PlannedMember>, probes: Seq<SourceProbe>, n: nat) -> Option<Seq<char>>
    decreases n,
{
    if n == 0 {
        None
    } else {
        match cleanup_group_error(root, members, probes, (n - 1) as nat) {
            Some(e) => Some(e),
            None => source_error(root, members[n - 1], probes[n - 1], true),
        }
    }
}

/// Checks the members of a group to clean up under the rule that applies
/// to it: the rule must be a cleanup rule without destination, and each
/// source must still be the file the plan saw.
pub fn validate_cleanup_sources(
    root: &str,
    rule: &RatingRule,
    item: &OperationPlanItem,
    probes: &Vec<SourceProbe>,
) -> (r: Result<Vec<ValidatedMember>, String>)
    requires
        probes@.len() == item.members@.len(),
    ensures
        rule.action != RuleAction::Cleanup || rule.destination is Some ==> (r matches Err(m) && m@ == "待清理照片组的规则或目标目录无效"@),
        rule.action == RuleAction::Cleanup && rule.destination is None ==> match cleanup_group_error(root@, item.members@, probes@, item.members@.len()) {
            Some(e) => r matches Err(m) && m@ == e,
            None => if item.members@.len() == 0 {
                r matches Err(m) && m@ == "待清理照片组没有可执行文件"@
            } else {
                r matches Ok(v) && v@.len() == item.members@.len() && forall|i: int| 0 <= i < v@.len() ==> {
                    let m = #[trigger] item.members@[i];
                    &&& v@[i].kind == m.kind
                    &&& v@[i].source@ == path_join(root@, m.source_relative_path@)
                    &&& v@[i].target@.len() == 0
                    &&& v@[i].expected_size_bytes == m.size_bytes
                    &&& v@[i].expected_modified_ms == m.modified_ms
                }
            },
        },
{
    if rule.action != RuleAction::Cleanup || rule.destination.is_some() {
        return Err("待清理照片组的规则或目标目录无效".to_owned());
    }
    let mut out: Vec<ValidatedMember> = Vec::new();
    let mut i: usize = 0;
    while i < item.members.len()
        invariant
            i <= item.members@.len(),
            probes@.len() == item.members@.len(),
            rule.action == RuleAction::Cleanup && rule.destination is None,
            cleanup_group_error(root@, item.members@, probes@, i as nat) is None,
            out@.len() == i,
            forall|k: int| 0 <= k < i ==> {
                let m = #[trigger] item.members@[k];
                &&& out@[k].kind == m.kind
                &&& out@[k].source@ == path_join(root@, m.source_relative_path@)
                &&& out@[k].target@.len() == 0
                &&& out@[k].expected_size_bytes == m.size_bytes
                &&& out@[k].expected_modified_ms == m.modified_ms
            },
        decreases item.members@.len() - i,
    {
        let member = &item.members[i];
        match check_source(root, member, &probes[i], true) {
            Err(e) => {
                proof {
                    lemma_cleanup_error_stays(root@, item.members@, probes@, (i + 1) as nat, item.members@.len());
                }
                return Err(e);
            },
            Ok(source) => {
                out.push(ValidatedMember {
                    kind: member.kind,
                    source,
                    target: String::new(),
                    expected_size_bytes: member.size_bytes,
                    expected_modified_ms: member.modified_ms,
                });
            },
        }
        i = i + 1;
    }
    if out.len() == 0 {
        return Err("待清理照片组没有可执行文件".to_owned());
    }
    Ok(out)
}

proof fn lemma_cleanup_error_stays(root: Seq<char>, members: Seq<PlannedMember>, probes: Seq<SourceProbe>, n: nat, m: nat)
    requires
        n <= m,
        cleanup_group_error(root, members, probes, n) is Some,
    ensures
        cleanup_group_error(root, members, probes, m) == cleanup_group_error(root, members, probes, n),
    decreases m,
{
    if n < m {
        lemma_cleanup_error_stays(root, members, probes, n, (m - 1) as nat);
    }
}

// ---------------------------------------------------------------------------
// Recovery decisions
// ---------------------------------------------------------------------------
/// Why a selection of groups to recover is refused, if it is: it must be
/// non-empty, and every id must be non-blank and named once.
pub open spec fn recovery_selection_error(ids: Seq<Seq<char>>) -> Option<Seq<char>> {
    if ids.len() == 0 {
        Some("请至少选择一个可恢复照片组"@)
    } else if exists|i: int| 0 <= i < ids.len() && is_blank(#[trigger] ids[i]) {
        Some("恢复照片组不能为空或重复"@)
    } else if !ids.no_duplicates() {
        Some("恢复照片组不能为空或重复"@)
    } else {
        None
    }
}

/// Checks the groups a recovery request selects.
pub fn validate_recovery_selection(group_ids: &Vec<String>) -> (r: Result<(), String>)
    ensures
        match recovery_selection_error(texts(group_ids@)) {
            Some(e) => r matches Err(m) && m@ == e,
            None => r is Ok,
        },
{
    let ghost ids = texts(group_ids@);
    if group_ids.len() == 0 {
        return Err("请至少选择一个可恢复照片组".to_owned());
    }
    let mut i: usize = 0;
    while i < group_ids.len()
        invariant
            i <= group_ids@.len(),
            ids == texts(group_ids@),
            forall|k: int| 0 <= k < i ==> !is_blank(#[trigger] ids[k]),
        decreases group_ids@.len() - i,
    {
        if is_blank_str(group_ids[i].as_str()) {
            assert(is_blank(ids[i as int]));
            return Err("恢复照片组不能为空或重复".to_owned());
        }
        i = i + 1;
    }
    if !crate::rating_sync::texts_distinct(group_ids) {
        return Err("恢复照片组不能为空或重复".to_owned());
    }
    Ok(())
}

pub open spec fn recovered(results: Seq<RecoveryMemberResult>, n: nat) -> nat
    decreases n,
{
    if n == 0 {
        0
    } else {
        recovered(results, (n - 1) as nat) + if results[n - 1].success { 1nat } else { 0nat }
    }
}

/// The status of a recovered group: success when every member (at least
/// one) came back, failed when none did, partial otherwise.
pub open spec fn recovery_status_of(results: Seq<RecoveryMemberResult>) -> OrganizerGroupStatus {
    let ok = recovered(results, results.len());
    if ok == results.len() && results.len() > 0 {
        OrganizerGroupStatus::Success
    } else if ok == 0 {
        OrganizerGroupStatus::Failed
    } else {
        OrganizerGroupStatus::Partial
    }
}

pub fn recovery_status(results: &Vec<RecoveryMemberResult>) -> (r: OrganizerGroupStatus)
    ensures
        r == recovery_status_of(results@),
{
    let mut ok: usize = 0;
    let mut i: usize = 0;
    while i < results.len()
        invariant
            i <= results@.len(),
            ok == recovered(results@, i as nat),
            ok <= i,
        decreases results@.len() - i,
    {
        if results[i].success {
            ok = ok + 1;
        }
        i = i + 1;
    }
    if ok == results.len() && results.len() > 0 {
        OrganizerGroupStatus::Success
    } else if ok == 0 {
        OrganizerGroupStatus::Failed
    } else {
        OrganizerGroupStatus::Partial
    }
}

/// A recorded source path must lie strictly inside the photo root.
pub fn trusted_history_source(root: &str, raw: &str) -> (r: Result<String, String>)
    ensures
        target_inside(root@, raw@) ==> (r matches Ok(p) && p@ == raw@),
        !target_inside(root@, raw@) ==> (r matches Err(e) && e@ == "历史记录中的原始路径超出了照片目录"@),
{
    let v = chars_of(raw);
    if !(v.len() > 0 && v[0] == '/') || !path_starts_with(raw, root) || paths_equal(raw, root) {
        return Err("历史记录中的原始路径超出了照片目录".to_owned());
    }
    Ok(raw.to_owned())
}

/// No segment of the path is `..`.
pub open spec fn no_parent_segment(s: Seq<char>) -> bool {
    forall|k: int| !parent_segment_at(s, k)
}

fn no_parent_segment_chars(v: &Vec<char>) -> (r: bool)
    ensures
        r == no_parent_segment(v@),
{
    let n = v.len();
    let mut k: usize = 0;
    while k < n && n - k >= 2
        invariant
            n == v@.len(),
            k <= n,
            forall|m: int| 0 <= m < k ==> !parent_segment_at(v@, m),
        decreases n - k,
    {
        if v[k] == '.' && v[k + 1] == '.' && (k == 0 || v[k - 1] == '/') && (k + 2 == n || v[k + 2] == '/') {
            assert(parent_segment_at(v@, k as int));
            return false;
        }
        k = k + 1;
    }
    assert forall|m: int| !parent_segment_at(v@, m) by {
        if 0 <= m && m + 2 <= n {
            assert(m < k);
        }
    }
    true
}

/// A recorded quarantine path must be absolute, hold no `..` segment, and
/// lie strictly inside the operation's quarantine directory.
pub fn trusted_quarantine_target(operation_root: &str, raw: &str) -> (r: Result<String, String>)
    ensures
        !(is_absolute(raw@) && no_parent_segment(raw@)) ==> (r matches Err(e) && e@ == "历史记录中的隔离路径无效"@),
        is_absolute(raw@) && no_parent_segment(raw@) && !(path_has_prefix(raw@, operation_root@) && !same_path(raw@, operation_root@))
            ==> (r matches Err(e) && e@ == "历史记录中的隔离路径超出了本次操作目录"@),
        is_absolute(raw@) && no_parent_segment(raw@) && path_has_prefix(raw@, operation_root@) && !same_path(raw@, operation_root@)
            ==> (r matches Ok(p) && p@ == raw@),
{
    let v = chars_of(raw);
    if !(v.len() > 0 && v[0] == '/') || !no_parent_segment_chars(&v) {
        return Err("历史记录中的隔离路径无效".to_owned());
    }
    if !path_starts_with(raw, operation_root) || paths_equal(raw, operation_root) {
        return Err("历史记录中的隔离路径超出了本次操作目录".to_owned());
    }
    Ok(raw.to_owned())
}

/// Some rule's destination holds `path` strictly inside it.
pub open spec fn inside_some_destination(rules: Seq<RatingRule>, path: Seq<char>) -> bool {
    exists|i: int| 0 <= i < rules.len() && match (#[trigger] rules[i]).destination {
        Some(d) => path_has_prefix(path, d@) && !same_path(path, d@),
        None => false,
    }
}

/// A recorded target path must be absolute and lie strictly inside the
/// destination of one of the operation's rules.
pub fn trusted_history_target(rules: &Vec<RatingRule>, raw: &str) -> (r: Result<String, String>)
    ensures
        !is_absolute(raw@) ==> (r matches Err(e) && e@ == "历史记录中的目标路径不是绝对路径"@),
        is_absolute(raw@) && !inside_some_destination(rules@, raw@) ==> (r matches Err(e) && e@ == "历史记录中的目标路径超出了规则目录"@),
        is_absolute(raw@) && inside_some_destination(rules@, raw@) ==> (r matches Ok(p) && p@ == raw@),
{
    let v = chars_of(raw);
    if !(v.len() > 0 && v[0] == '/') {
        return Err("历史记录中的目标路径不是绝对路径".to_owned());
    }
    let mut i: usize = 0;
    while i < rules.len()
        invariant
            i <= rules@.len(),
            is_absolute(raw@),
            forall|k: int| 0 <= k < i ==> match (#[trigger] rules@[k]).destination {
                Some(d) => !(path_has_prefix(raw@, d@) && !same_path(raw@, d@)),
                None => true,
            },
        decreases rules@.len() - i,
    {
        match &rules[i].destination {
            Some(d) => {
                if path_starts_with(raw, d.as_str()) && !paths_equal(raw, d.as_str()) {
                    return Ok(raw.to_owned());
                }
            },
            None => {},
        }
        i = i + 1;
    }
    Err("历史记录中的目标路径超出了规则目录".to_owned())
}

/// Why a recorded group cannot be recovered with `kind`, if it cannot: the
/// recovery must undo the group's action, the group must have succeeded at
/// least in part, and it must not have been recovered already (`done`).
pub open spec fn recovery_group_error(g: OperationGroupRecord, kind: RecoveryKind, done: bool) -> Option<Seq<char>> {
    if recovery_kind_for(g.action) != Some(kind) {
        Some("照片组“"@ + g.relative_stem@ + "”的原操作类型不匹配"@)
    } else if !(g.status == OrganizerGroupStatus::Success || g.status == OrganizerGroupStatus::Partial) {
        Some("照片组“"@ + g.relative_stem@ + "”没有可恢复文件"@)
    } else if done {
        Some("照片组“"@ + g.relative_stem@ + "”已经恢复或撤销"@)
    } else {
        None
    }
}

/// Checks that a recorded group can be recovered.
pub fn check_recovery_group(group: &OperationGroupRecord, kind: RecoveryKind, done: bool) -> (r: Result<(), String>)
    ensures
        match recovery_group_error(*group, kind, done) {
            Some(e) => r matches Err(m) && m@ == e,
            None => r is Ok,
        },
{
    let stem = group.relative_stem.as_str();
    match expected_recovery_kind(group.action) {
        Some(k) => {
            if k != kind {
                return Err(concat3("照片组“", stem, "”的原操作类型不匹配"));
            }
        },
        None => {
            return Err(concat3("照片组“", stem, "”的原操作类型不匹配"));
        },
    }
    if !(group.status == OrganizerGroupStatus::Success || group.status == OrganizerGroupStatus::Partial) {
        return Err(concat3("照片组“", stem, "”没有可恢复文件"));
    }
    if done {
        return Err(concat3("照片组“", stem, "”已经恢复或撤销"));
    }
    Ok(())
}

/// The message of a recovered group: how many of its members came back.
pub fn recovery_message(results: &Vec<RecoveryMemberResult>) -> (r: String)
    ensures
        r@ == decimal_text(recovered(results@, results@.len()) as nat) + " / "@ + decimal_text(results@.len() as nat)
            + " 个文件处理完成"@,
{
    let mut ok: usize = 0;
    let mut i: usize = 0;
    while i < results.len()
        invariant
            i <= results@.len(),
            ok == recovered(results@, i as nat),
            ok <= i,
        decreases results@.len() - i,
    {
        if results[i].success {
            ok = ok + 1;
        }
        i = i + 1;
    }
    let a = decimal(ok as u64);
    let b = decimal(results.len() as u64);
    let head = concat3(a.as_str(), " / ", b.as_str());
    concat(head.as_str(), " 个文件处理完成")
}

} // verus!
