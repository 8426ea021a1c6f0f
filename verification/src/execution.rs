//! Running an authorised organizer plan: which work each group gets, the
//! record of a group sent to the system trash, where each rating write at the
//! destination lands, and which groups must be undone when the run's history
//! cannot be saved. The file work itself is the caller's.

use vstd::prelude::*;
use crate::history::{FileFingerprint, OperationGroupRecord, OperationMemberRecord, OrganizerAction, OrganizerGroupStatus};
use crate::operation_plan::{OperationPlanItem, PlannedSyncAction, SyncTiming};
use crate::organizer::{group_view, record_view, record_views, relocation_result_group, GroupView, MemberRecordView, ValidatedMember};
use crate::pair_cleanup::CleanupDestination;
use crate::paths::{display_path, display_text, is_absolute, path_has_prefix, path_starts_with, paths_equal, same_path, with_extension, with_extension_text};
use crate::rating_rules::{RuleAction, RuleMemberKind};
use crate::rating_sync::RatingSyncTarget;
use crate::text::{chars_of, concat, concat3, decimal, decimal_text};

verus! {

// ---------------------------------------------------------------------------
// The work of a group
// ---------------------------------------------------------------------------
/// What a ready group of an authorised plan is run as.
#[derive(Debug)]
pub enum GroupWork {
    Copy,
    Move,
    Quarantine,
    Trash,
    /// The group fails at once, recorded with this action and error.
    Fail(OrganizerAction, String),
}

pub open spec fn work_view(w: GroupWork) -> (int, Option<(OrganizerAction, Seq<char>)>) {
    match w {
        GroupWork::Copy => (0, None),
        GroupWork::Move => (1, None),
        GroupWork::Quarantine => (2, None),
        GroupWork::Trash => (3, None),
        GroupWork::Fail(a, e) => (4, Some((a, e@))),
    }
}

/// Copy and move rules copy and move; a cleanup rule goes to the quarantine
/// or the system trash as the plan says, and fails without a destination;
/// anything else is refused.
pub open spec fn group_work_of(action: Option<RuleAction>, cleanup: Option<CleanupDestination>) -> (int, Option<(OrganizerAction, Seq<char>)>) {
    match action {
        Some(RuleAction::Copy) => (0, None),
        Some(RuleAction::Move) => (1, None),
        Some(RuleAction::Cleanup) => match cleanup {
            Some(CleanupDestination::Quarantine) => (2, None),
            Some(CleanupDestination::Trash) => (3, None),
            None => (4, Some((OrganizerAction::Trash, "待清理目标缺失"@))),
        },
        _ => (4, Some((OrganizerAction::Copy, "当前仅允许执行复制、移动或清理"@))),
    }
}

/// Decides the work of a group (see `group_work_of`).
pub fn group_work(action: Option<RuleAction>, cleanup: Option<CleanupDestination>) -> (r: GroupWork)
    ensures
        work_view(r) == group_work_of(action, cleanup),
{
    match action {
        Some(RuleAction::Copy) => GroupWork::Copy,
        Some(RuleAction::Move) => GroupWork::Move,
        Some(RuleAction::Cleanup) => match cleanup {
            Some(CleanupDestination::Quarantine) => GroupWork::Quarantine,
            Some(CleanupDestination::Trash) => GroupWork::Trash,
            None => GroupWork::Fail(OrganizerAction::Trash, "待清理目标缺失".to_owned()),
        },
        _ => GroupWork::Fail(OrganizerAction::Copy, "当前仅允许执行复制、移动或清理".to_owned()),
    }
}

// ---------------------------------------------------------------------------
// A group sent to the system trash
// ---------------------------------------------------------------------------
/// The record of a member sent (or not) to the system trash.
pub open spec fn trash_member(m: ValidatedMember, message: Seq<char>) -> MemberRecordView {
    MemberRecordView {
        kind: m.kind,
        source: display_text(m.source@),
        target: Seq::empty(),
        expected_size_bytes: m.expected_size_bytes,
        expected_modified_ms: m.expected_modified_ms,
        snapshot: None,
        message,
    }
}

/// How many of the first `n` members' sources are gone.
pub open spec fn gone_count(gone: Seq<bool>, n: nat) -> nat
    decreases n,
{
    if n == 0 {
        0
    } else {
        gone_count(gone, (n - 1) as nat) + if (n - 1) < gone.len() && gone[n - 1] { 1nat } else { 0nat }
    }
}

/// The message of the `i`-th member of a trash group that stopped at member
/// `k` with `error` (or finished, when `failure` is `None`).
pub open spec fn trash_message(i: int, failure: Option<(usize, Seq<char>)>) -> Seq<char> {
    match failure {
        None => "已移入系统回收站/废纸篓，FramePair 不提供应用内恢复"@,
        Some((k, e)) => if i < k {
            "已移入系统回收站/废纸篓，FramePair 不提供应用内恢复"@
        } else if i == k {
            e
        } else {
            "因同组前序文件失败而停止清理"@
        },
    }
}

pub open spec fn failure_text(failure: Option<(usize, String)>) -> Option<(usize, Seq<char>)> {
    match failure {
        None => None,
        Some((k, e)) => Some((k, e@)),
    }
}

/// The record of a group sent to the system trash member by member, in
/// order. `failure` is the member at which the trash refused a file, with
/// the error, if it did; the members after it were not tried. `gone` says,
/// for the members before it, whether their source is gone.
pub fn trash_group(
    item: &OperationPlanItem,
    members: &Vec<ValidatedMember>,
    failure: Option<(usize, String)>,
    gone: &Vec<bool>,
) -> (r: OperationGroupRecord)
    requires
        failure matches Some((k, _)) ==> k < members@.len(),
    ensures
        ({
            let n = members@.len();
            let f = failure_text(failure);
            group_view(r) == GroupView {
                group_id: item.group_id@,
                relative_stem: item.relative_stem@,
                action: OrganizerAction::Trash,
                status: match f {
                    None => OrganizerGroupStatus::Success,
                    Some((k, _)) => if gone_count(gone@, k as nat) == 0 {
                        OrganizerGroupStatus::Failed
                    } else {
                        OrganizerGroupStatus::Partial
                    },
                },
                message: match f {
                    None => "已将 "@ + decimal_text(n) + " 个文件移入系统回收站/废纸篓"@,
                    Some((k, e)) => decimal_text(gone_count(gone@, k as nat)) + " / "@ + decimal_text(n) + " 个文件已进入系统回收站；"@ + e,
                },
                members: Seq::new(n, |i: int| trash_member(members@[i], trash_message(i, f))),
            }
        }),
{
    let ghost f = failure_text(failure);
    let n = members.len();
    let mut records: Vec<OperationMemberRecord> = Vec::new();
    let mut i: usize = 0;
    while i < n
        invariant
            n == members@.len(),
            i <= n,
            f == failure_text(failure),
            record_views(records@) == Seq::new(i as nat, |j: int| trash_member(members@[j], trash_message(j, f))),
        decreases n - i,
    {
        let m = &members[i];
        let message = match &failure {
            None => "已移入系统回收站/废纸篓，FramePair 不提供应用内恢复".to_owned(),
            Some((k, e)) => if i < *k {
                "已移入系统回收站/废纸篓，FramePair 不提供应用内恢复".to_owned()
            } else if i == *k {
                e.clone()
            } else {
                "因同组前序文件失败而停止清理".to_owned()
            },
        };
        let rec = OperationMemberRecord {
            kind: m.kind,
            source_path: display_path(m.source.as_str()),
            target_path: String::new(),
            expected_size_bytes: m.expected_size_bytes,
            expected_modified_ms: m.expected_modified_ms,
            target_snapshot: None,
            message,
        };
        let ghost old_records = records@;
        proof {
            assert(record_view(rec) == trash_member(members@[i as int], trash_message(i as int, f)));
        }
        records.push(rec);
        assert(record_views(records@) =~= record_views(old_records).push(record_view(rec)));
        assert(record_views(records@) =~= Seq::new((i + 1) as nat, |j: int| trash_member(members@[j], trash_message(j, f))));
        i = i + 1;
    }
    match failure {
        None => {
            let count = decimal(n as u64);
            let message = concat3("已将 ", count.as_str(), " 个文件移入系统回收站/废纸篓");
            relocation_result_group(item, OrganizerAction::Trash, OrganizerGroupStatus::Success, message, records)
        },
        Some((k, e)) => {
            let mut succeeded: usize = 0;
            let mut j: usize = 0;
            while j < k
                invariant
                    j <= k,
                    succeeded == gone_count(gone@, j as nat),
                    succeeded <= j,
                decreases k - j,
            {
                if j < gone.len() && gone[j] {
                    succeeded = succeeded + 1;
                }
                j = j + 1;
            }
            let done = decimal(succeeded as u64);
            let total = decimal(n as u64);
            let head = concat3(done.as_str(), " / ", total.as_str());
            let message = concat3(head.as_str(), " 个文件已进入系统回收站；", e.as_str());
            let status = if succeeded == 0 {
                OrganizerGroupStatus::Failed
            } else {
                OrganizerGroupStatus::Partial
            };
            relocation_result_group(item, OrganizerAction::Trash, status, message, records)
        },
    }
}

// ---------------------------------------------------------------------------
// Undoing a run whose history could not be saved
// ---------------------------------------------------------------------------
/// A group whose files were changed and can be put back: copied, moved or
/// quarantined, fully or in part (the system trash cannot be undone here).
pub open spec fn undoable(g: OperationGroupRecord) -> bool {
    &&& g.status == OrganizerGroupStatus::Success || g.status == OrganizerGroupStatus::Partial
    &&& g.action != OrganizerAction::Trash
}

/// The indices, in order, of the first `n` groups to undo.
pub open spec fn undo_indices(groups: Seq<OperationGroupRecord>, n: nat) -> Seq<int>
    decreases n,
{
    if n == 0 {
        seq![]
    } else if undoable(groups[n - 1]) {
        undo_indices(groups, (n - 1) as nat).push(n - 1)
    } else {
        undo_indices(groups, (n - 1) as nat)
    }
}

/// The groups of a run to undo when its history cannot be saved, in order.
pub fn groups_to_undo(groups: &Vec<OperationGroupRecord>) -> (r: Vec<usize>)
    ensures
        r@.map_values(|i: usize| i as int) == undo_indices(groups@, groups@.len()),
{
    let mut out: Vec<usize> = Vec::new();
    let mut i: usize = 0;
    while i < groups.len()
        invariant
            i <= groups@.len(),
            out@.map_values(|x: usize| x as int) == undo_indices(groups@, i as nat),
        decreases groups@.len() - i,
    {
        let g = &groups[i];
        if (g.status == OrganizerGroupStatus::Success || g.status == OrganizerGroupStatus::Partial) && g.action
            != OrganizerAction::Trash {
            out.push(i);
            assert(out@.map_values(|x: usize| x as int) =~= undo_indices(groups@, i as nat).push(i as int));
        }
        i = i + 1;
    }
    out
}

// ---------------------------------------------------------------------------
// Rating writes at the destination
// ---------------------------------------------------------------------------
/// Where a rating write after a copy or move lands: on a committed member,
/// or on a new RAW sidecar next to a committed RAW (with the source path it
/// stands for).
#[derive(Debug)]
pub enum SyncPlacement {
    Member(usize),
    NewRawXmp(String, String),
}

/// The first committed member whose target is `target`.
pub open spec fn first_target(members: Seq<OperationMemberRecord>, target: Seq<char>, n: nat) -> Option<int>
    decreases n,
{
    if n == 0 {
        None
    } else {
        match first_target(members, target, (n - 1) as nat) {
            Some(i) => Some(i),
            None => if same_path(members[n - 1].target_path@, target) { Some(n - 1) } else { None },
        }
    }
}

/// The first committed RAW whose sidecar would be `target`.
pub open spec fn first_raw_for(members: Seq<OperationMemberRecord>, target: Seq<char>, n: nat) -> Option<int>
    decreases n,
{
    if n == 0 {
        None
    } else {
        match first_raw_for(members, target, (n - 1) as nat) {
            Some(i) => Some(i),
            None => if members[n - 1].kind == RuleMemberKind::Raw && same_path(
                with_extension_text(members[n - 1].target_path@, "xmp"@),
                target,
            ) {
                Some(n - 1)
            } else {
                None
            },
        }
    }
}

pub open spec fn placement_view(p: SyncPlacement) -> Result<int, (Seq<char>, Seq<char>)> {
    match p {
        SyncPlacement::Member(i) => Ok(i as int),
        SyncPlacement::NewRawXmp(s, t) => Err((s@, t@)),
    }
}

/// Where a destination rating write lands, or why it cannot: it must be a
/// write after the copy or move, inside the rule's destination, on a
/// committed member, or (for a RAW sidecar) next to a committed RAW.
pub open spec fn sync_placement(
    members: Seq<OperationMemberRecord>,
    destination: Seq<char>,
    sync: PlannedSyncAction,
) -> Result<Result<int, (Seq<char>, Seq<char>)>, Seq<char>> {
    let target = sync.target_path@;
    if sync.timing != SyncTiming::Destination {
        Err("评分同步目标不是复制或移动后的文件"@)
    } else if !is_absolute(target) || !path_has_prefix(target, destination) {
        Err("评分同步目标超出了规则目标目录"@)
    } else {
        match first_target(members, target, members.len()) {
            Some(i) => Ok(Ok(i)),
            None => if sync.target != RatingSyncTarget::RawXmp {
                Err("JPG 评分同步目标不在已提交文件中"@)
            } else {
                match first_raw_for(members, target, members.len()) {
                    Some(i) => Ok(Err((with_extension_text(members[i].source_path@, "xmp"@), target))),
                    None => Err("RAW XMP 同步目标无法对应已提交 RAW"@),
                }
            },
        }
    }
}

/// Decides where a destination rating write lands (see `sync_placement`).
pub fn destination_sync_placement(group: &OperationGroupRecord, destination: &str, sync: &PlannedSyncAction) -> (r: Result<SyncPlacement, String>)
    ensures
        match sync_placement(group.members@, destination@, *sync) {
            Ok(p) => r matches Ok(q) && placement_view(q) == p,
            Err(e) => r matches Err(m) && m@ == e,
        },
{
    if sync.timing != SyncTiming::Destination {
        return Err("评分同步目标不是复制或移动后的文件".to_owned());
    }
    let target = sync.target_path.as_str();
    let chars = chars_of(target);
    if !(chars.len() > 0 && chars[0] == '/') || !path_starts_with(target, destination) {
        return Err("评分同步目标超出了规则目标目录".to_owned());
    }
    assert(is_absolute(target@));
    let members = &group.members;
    let mut i: usize = 0;
    while i < members.len()
        invariant
            i <= members@.len(),
            first_target(members@, target@, i as nat) is None,
            members@ == group.members@,
            target@ == sync.target_path@,
            sync.timing == SyncTiming::Destination,
            is_absolute(target@) && path_has_prefix(target@, destination@),
        decreases members@.len() - i,
    {
        if paths_equal(members[i].target_path.as_str(), target) {
            proof {
                lemma_first_target_stays(members@, target@, (i + 1) as nat, members@.len());
            }
            return Ok(SyncPlacement::Member(i));
        }
        i = i + 1;
    }
    if sync.target != RatingSyncTarget::RawXmp {
        return Err("JPG 评分同步目标不在已提交文件中".to_owned());
    }
    let mut j: usize = 0;
    while j < members.len()
        invariant
            j <= members@.len(),
            first_raw_for(members@, target@, j as nat) is None,
            first_target(members@, target@, members@.len()) is None,
            members@ == group.members@,
            target@ == sync.target_path@,
            sync.timing == SyncTiming::Destination,
            sync.target == RatingSyncTarget::RawXmp,
            is_absolute(target@) && path_has_prefix(target@, destination@),
        decreases members@.len() - j,
    {
        if members[j].kind == RuleMemberKind::Raw {
            let sidecar = with_extension(members[j].target_path.as_str(), "xmp");
            if paths_equal(sidecar.as_str(), target) {
                proof {
                    lemma_first_raw_stays(members@, target@, (j + 1) as nat, members@.len());
                }
                let source = with_extension(members[j].source_path.as_str(), "xmp");
                return Ok(SyncPlacement::NewRawXmp(source, sync.target_path.clone()));
            }
        }
        j = j + 1;
    }
    Err("RAW XMP 同步目标无法对应已提交 RAW".to_owned())
}

proof fn lemma_first_target_stays(members: Seq<OperationMemberRecord>, target: Seq<char>, n: nat, m: nat)
    requires
        n <= m,
        first_target(members, target, n) is Some,
    ensures
        first_target(members, target, m) == first_target(members, target, n),
    decreases m,
{
    if n < m {
        lemma_first_target_stays(members, target, n, (m - 1) as nat);
    }
}

proof fn lemma_first_raw_stays(members: Seq<OperationMemberRecord>, target: Seq<char>, n: nat, m: nat)
    requires
        n <= m,
        first_raw_for(members, target, n) is Some,
    ensures
        first_raw_for(members, target, m) == first_raw_for(members, target, n),
    decreases m,
{
    if n < m {
        lemma_first_raw_stays(members, target, n, (m - 1) as nat);
    }
}

/// The message of a committed member whose rating was written.
pub fn synced_message(message: &str, rating: u8) -> (r: String)
    ensures
        r@ == message@ + "；评分已同步为 "@ + decimal_text(rating as nat) + " 星"@,
{
    let n = decimal(rating as u64);
    let head = concat3(message, "；评分已同步为 ", n.as_str());
    concat(head.as_str(), " 星")
}

/// The record of a RAW sidecar created at the destination with the rating.
pub fn created_sidecar_record(source: &str, target: &str, snapshot: FileFingerprint, rating: u8) -> (r: OperationMemberRecord)
    ensures
        record_view(r) == (MemberRecordView {
            kind: RuleMemberKind::Xmp,
            source: display_text(source@),
            target: display_text(target@),
            expected_size_bytes: 0,
            expected_modified_ms: None,
            snapshot: Some(crate::organizer::fingerprint_view(snapshot)),
            message: "已在目标位置创建 "@ + decimal_text(rating as nat) + " 星 RAW XMP"@,
        }),
{
    let n = decimal(rating as u64);
    OperationMemberRecord {
        kind: RuleMemberKind::Xmp,
        source_path: display_path(source),
        target_path: display_path(target),
        expected_size_bytes: 0,
        expected_modified_ms: None,
        target_snapshot: Some(snapshot),
        message: concat3("已在目标位置创建 ", n.as_str(), " 星 RAW XMP"),
    }
}

} // verus!
