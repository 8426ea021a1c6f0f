//! Running a photo group all or nothing. The caller does the file work one
//! member at a time and reports what happened; these functions decide what
//! comes next: the next member, undoing every committed member (last first)
//! once one fails, and the group's record at the end. A group succeeds only
//! when every member was committed.
//!
//! Also here: the end of a move across devices (targets verified, then the
//! sources deleted), and which members of a recorded group a recovery acts
//! on, after checking the whole group first.

use vstd::prelude::*;
use crate::history::{
    FileFingerprint, OperationGroupRecord, OperationMemberRecord, OrganizerAction, OrganizerGroupStatus,
    RecoveryKind, RecoveryMemberResult,
};
use crate::operation_plan::{OperationPlanItem, PlannedMember};
use crate::organizer::{
    failed_group, failed_member, group_after_rollback, group_view, join_failures, joined_failures,
    move_result_group, record_view, record_views, relocation_result_group, source_unchanged, EntryState, GroupView,
    MemberRecordView, ValidatedMember,
};
use crate::paths::{display_path, display_text};
use crate::safety::texts;
use crate::text::{chars_eq, chars_eq_str, chars_of, concat, concat3, decimal, decimal_text};

verus! {

// ---------------------------------------------------------------------------
// Committing a group member by member
// ---------------------------------------------------------------------------
/// How a failed group is recorded once its committed members were undone.
#[derive(Debug, Clone, Copy, PartialEq, Eq, Structural)]
pub enum RollbackStyle {
    /// A move: failed when the undo was complete, else partial with the
    /// committed members kept in the record.
    KeepPartial,
    /// A copy: always failed, the undo failures added to the message.
    FailWhole,
}

/// Where a group run stands: how many members it commits, the records of
/// those committed so far, and, while they are being undone, the failure's
/// message for a complete undo and the prefix for an incomplete one.
#[derive(Debug)]
pub struct GroupRun {
    pub count: usize,
    pub records: Vec<OperationMemberRecord>,
    pub failure: Option<(String, String)>,
}

/// What the caller reports.
#[derive(Debug)]
pub enum CommitEvent {
    /// The member asked for was committed, with its record.
    Committed(OperationMemberRecord),
    /// The member asked for could not be committed (nothing of it is left
    /// behind): the message for a complete undo, and the prefix of the
    /// message for an incomplete one.
    Failed(String, String),
    /// The committed members were undone, last first; the failures met.
    RolledBack(Vec<String>),
}

/// What the caller does next.
#[derive(Debug)]
pub enum CommitAction {
    /// Commit the member at this index.
    Commit(usize),
    /// Undo the committed members of `records`, last first.
    RollBack,
    /// The run is over: `None` when every member was committed (their
    /// records are in the run), else the failed group's record.
    Done(Option<OperationGroupRecord>),
}

impl GroupRun {
    /// Whether `event` answers what the run asked for.
    pub open spec fn fits(&self, event: CommitEvent) -> bool {
        match event {
            CommitEvent::RolledBack(_) => self.failure is Some,
            _ => self.failure is None && self.records@.len() < self.count,
        }
    }
}

/// The record of a group whose member failed after the committed members
/// were undone with `failures`.
pub open spec fn rollback_group_view(
    item: OperationPlanItem,
    action: OrganizerAction,
    style: RollbackStyle,
    clean: Seq<char>,
    dirty: Seq<char>,
    failures: Seq<Seq<char>>,
    records: Seq<MemberRecordView>,
) -> GroupView {
    let message = if failures.len() == 0 { clean } else { dirty + joined_failures(failures) };
    if style == RollbackStyle::KeepPartial && failures.len() > 0 {
        GroupView {
            group_id: item.group_id@,
            relative_stem: item.relative_stem@,
            action,
            status: OrganizerGroupStatus::Partial,
            message,
            members: records,
        }
    } else {
        GroupView {
            group_id: item.group_id@,
            relative_stem: item.relative_stem@,
            action,
            status: OrganizerGroupStatus::Failed,
            message,
            members: item.members@.map_values(|m: PlannedMember| failed_member(m, message)),
        }
    }
}

/// Starts a run over `count` members.
pub fn commit_start(count: usize) -> (r: (GroupRun, CommitAction))
    ensures
        r.0.count == count,
        r.0.records@.len() == 0,
        r.0.failure is None,
        count == 0 ==> r.1 matches CommitAction::Done(None),
        count > 0 ==> r.1 matches CommitAction::Commit(0),
{
    let run = GroupRun { count, records: Vec::new(), failure: None };
    if count == 0 {
        (run, CommitAction::Done(None))
    } else {
        (run, CommitAction::Commit(0))
    }
}

/// The next step of a run. A committed member is added and the next one
/// asked for, the run ending once all are in; a failed member makes every
/// committed member be undone; after the undo the run ends with the group's
/// failure record.
pub fn commit_step(
    item: &OperationPlanItem,
    action: OrganizerAction,
    style: RollbackStyle,
    run: GroupRun,
    event: CommitEvent,
) -> (r: (GroupRun, CommitAction))
    requires
        run.fits(event),
    ensures
        r.0.count == run.count,
        match event {
            CommitEvent::Committed(rec) => {
                &&& record_views(r.0.records@) == record_views(run.records@).push(record_view(rec))
                &&& r.0.failure is None
                &&& run.records@.len() + 1 == run.count ==> r.1 == CommitAction::Done(None)
                &&& run.records@.len() + 1 < run.count ==> r.1 == CommitAction::Commit((run.records@.len() + 1) as usize)
            },
            CommitEvent::Failed(clean, dirty) => {
                &&& record_views(r.0.records@) == record_views(run.records@)
                &&& r.0.failure matches Some(f) && f.0@ == clean@ && f.1@ == dirty@
                &&& r.1 is RollBack
            },
            CommitEvent::RolledBack(failures) => {
                &&& r.0.records@.len() == 0
                &&& r.0.failure is None
                &&& r.1 matches CommitAction::Done(Some(g)) && group_view(g) == rollback_group_view(
                    *item,
                    action,
                    style,
                    (run.failure->0).0@,
                    (run.failure->0).1@,
                    texts(failures@),
                    record_views(run.records@),
                )
            },
        },
{
    let GroupRun { count, records, failure } = run;
    let ghost before = records@;
    match event {
        CommitEvent::Committed(rec) => {
            let mut records = records;
            records.push(rec);
            assert(record_views(records@) =~= record_views(before).push(record_view(rec)));
            let n = records.len();
            let next = if n == count {
                CommitAction::Done(None)
            } else {
                CommitAction::Commit(n)
            };
            (GroupRun { count, records, failure: None }, next)
        },
        CommitEvent::Failed(clean, dirty) => (GroupRun { count, records, failure: Some((clean, dirty)) }, CommitAction::RollBack),
        CommitEvent::RolledBack(failures) => {
            let (clean, dirty) = match failure {
                Some(f) => f,
                None => {
                    assert(false);
                    (String::new(), String::new())
                },
            };
            let group = match style {
                RollbackStyle::KeepPartial => group_after_rollback(item, action, clean, dirty.as_str(), &failures, records),
                RollbackStyle::FailWhole => {
                    let message = if failures.len() == 0 {
                        clean
                    } else {
                        let joined = join_failures(&failures);
                        concat(dirty.as_str(), joined.as_str())
                    };
                    failed_group(item, action, message)
                },
            };
            (GroupRun { count, records: Vec::new(), failure: None }, CommitAction::Done(Some(group)))
        },
    }
}

/// A member's failure: the message when the undo is complete, and the
/// prefix of the message when it is not.
pub open spec fn failure_of(clean: Seq<char>, dirty: Seq<char>) -> Result<(), (Seq<char>, Seq<char>)> {
    Err((clean, dirty))
}

pub open spec fn failure_view(r: Result<(), (String, String)>) -> Result<(), (Seq<char>, Seq<char>)> {
    match r {
        Ok(()) => Ok(()),
        Err((a, b)) => Err((a@, b@)),
    }
}

/// Whether the next member of a same-device move may be renamed: nothing may
/// be at its target (`target_taken`: whether something is, or why that could
/// not be told), and its source must still be the regular file the plan saw.
pub open spec fn rename_check(member: ValidatedMember, target_taken: Result<bool, String>, source: Result<EntryState, String>) -> Result<(), (Seq<char>, Seq<char>)> {
    match target_taken {
        Ok(true) => {
            let e = "目标路径已存在："@ + display_text(member.target@);
            failure_of(e, e + "；回滚不完整："@)
        },
        Err(x) => {
            let e = "无法检查目标路径："@ + x@;
            failure_of(e, e + "；回滚不完整："@)
        },
        Ok(false) => match source {
            Err(x) => failure_of("移动源文件不可访问："@ + x@, "移动源文件不可访问且回滚不完整："@),
            Ok(s) => if !source_unchanged(s.is_symlink, s.is_file, s.size_bytes, s.modified_ms, member) {
                failure_of("移动源文件发生变化，已回滚"@, "移动源文件发生变化且回滚不完整："@)
            } else {
                Ok(())
            },
        },
    }
}

/// Checks the next member of a same-device move (see `rename_check`).
pub fn rename_member_check(
    member: &ValidatedMember,
    target_taken: &Result<bool, String>,
    source: &Result<EntryState, String>,
) -> (r: Result<(), (String, String)>)
    ensures
        failure_view(r) == rename_check(*member, *target_taken, *source),
{
    match target_taken {
        Ok(true) => {
            let shown = display_path(member.target.as_str());
            let e = concat("目标路径已存在：", shown.as_str());
            let d = concat(e.as_str(), "；回滚不完整：");
            return Err((e, d));
        },
        Err(x) => {
            let e = concat("无法检查目标路径：", x.as_str());
            let d = concat(e.as_str(), "；回滚不完整：");
            return Err((e, d));
        },
        Ok(false) => {},
    }
    match source {
        Err(x) => Err((concat("移动源文件不可访问：", x.as_str()), "移动源文件不可访问且回滚不完整：".to_owned())),
        Ok(s) => {
            if s.is_symlink || !s.is_file || s.size_bytes != member.expected_size_bytes || s.modified_ms != member.expected_modified_ms {
                Err(("移动源文件发生变化，已回滚".to_owned(), "移动源文件发生变化且回滚不完整：".to_owned()))
            } else {
                Ok(())
            }
        },
    }
}

/// The failure of a rename that the file system refused with `error`.
pub fn rename_failure(error: &str) -> (r: (String, String))
    ensures
        r.0@ == "移动文件失败："@ + error@ + "；已回滚"@,
        r.1@ == "移动文件失败："@ + error@ + "；回滚不完整："@,
{
    (concat3("移动文件失败：", error, "；已回滚"), concat3("移动文件失败：", error, "；回滚不完整："))
}

/// The failure of a step whose error text is the whole message.
pub fn plain_failure(error: &str) -> (r: (String, String))
    ensures
        r.0@ == error@,
        r.1@ == error@ + "；回滚不完整："@,
{
    (error.to_owned(), concat(error, "；回滚不完整："))
}

/// The record of a copied group whose members were all committed.
pub fn copied_group(item: &OperationPlanItem, records: Vec<OperationMemberRecord>) -> (r: OperationGroupRecord)
    ensures
        group_view(r) == (GroupView {
            group_id: item.group_id@,
            relative_stem: item.relative_stem@,
            action: OrganizerAction::Copy,
            status: OrganizerGroupStatus::Success,
            message: "已复制并校验 "@ + decimal_text(records@.len() as nat) + " 个文件"@,
            members: record_views(records@),
        }),
{
    let n = decimal(records.len() as u64);
    let message = concat3("已复制并校验 ", n.as_str(), " 个文件");
    relocation_result_group(item, OrganizerAction::Copy, OrganizerGroupStatus::Success, message, records)
}

// ---------------------------------------------------------------------------
// Undoing committed members
// ---------------------------------------------------------------------------
/// What undoing one committed member does.
#[derive(Debug, PartialEq, Eq)]
pub enum UndoStep {
    /// Nothing was committed for this member.
    Skip,
    /// Put the file back (a move) or remove the copy (a copy).
    Undo,
    /// Leave it, for this reason.
    Refuse(String),
}

pub open spec fn undo_view(u: UndoStep) -> Option<Option<Seq<char>>> {
    match u {
        UndoStep::Skip => None,
        UndoStep::Undo => Some(None),
        UndoStep::Refuse(m) => Some(Some(m@)),
    }
}

/// The target still holds what was committed: its fingerprint could be read
/// and has the recorded size and hash.
pub open spec fn still_committed(snapshot: FileFingerprint, target: Result<FileFingerprint, String>) -> bool {
    target matches Ok(t) && t.size_bytes == snapshot.size_bytes && t.sha256@ == snapshot.sha256@
}

fn same_content(snapshot: &FileFingerprint, target: &Result<FileFingerprint, String>) -> (r: bool)
    ensures
        r == still_committed(*snapshot, *target),
{
    match target {
        Ok(t) => t.size_bytes == snapshot.size_bytes && chars_eq_str(&chars_of(t.sha256.as_str()), snapshot.sha256.as_str()),
        Err(_) => false,
    }
}

/// Undoing a rename: only when the source is free and the target still holds
/// what was moved.
pub open spec fn rename_undo(record: OperationMemberRecord, source_taken: bool, target: Result<FileFingerprint, String>) -> Option<Option<Seq<char>>> {
    match record.target_snapshot {
        None => None,
        Some(snapshot) => if source_taken {
            Some(Some(record.source_path@ + "：原位置已被占用"@))
        } else if !still_committed(snapshot, target) {
            Some(Some(record.target_path@ + "：目标已变化"@))
        } else {
            Some(None)
        },
    }
}

/// Decides how to undo a committed rename (see `rename_undo`).
pub fn rename_undo_step(record: &OperationMemberRecord, source_taken: bool, target: &Result<FileFingerprint, String>) -> (r: UndoStep)
    ensures
        undo_view(r) == rename_undo(*record, source_taken, *target),
{
    match &record.target_snapshot {
        None => UndoStep::Skip,
        Some(snapshot) => if source_taken {
            UndoStep::Refuse(concat(record.source_path.as_str(), "：原位置已被占用"))
        } else if !same_content(snapshot, target) {
            UndoStep::Refuse(concat(record.target_path.as_str(), "：目标已变化"))
        } else {
            UndoStep::Undo
        },
    }
}

/// Undoing a copy: the copy is removed only while it still holds what was
/// written; a changed copy that is still there is reported and left.
pub open spec fn copy_undo(record: OperationMemberRecord, target_exists: bool, target: Result<FileFingerprint, String>) -> Option<Option<Seq<char>>> {
    match record.target_snapshot {
        None => None,
        Some(snapshot) => if still_committed(snapshot, target) {
            Some(None)
        } else if target_exists {
            Some(Some(record.target_path@ + "：副本已变化，未自动移除"@))
        } else {
            None
        },
    }
}

/// Decides how to undo a committed copy (see `copy_undo`).
pub fn copy_undo_step(record: &OperationMemberRecord, target_exists: bool, target: &Result<FileFingerprint, String>) -> (r: UndoStep)
    ensures
        undo_view(r) == copy_undo(*record, target_exists, *target),
{
    match &record.target_snapshot {
        None => UndoStep::Skip,
        Some(snapshot) => if same_content(snapshot, target) {
            UndoStep::Undo
        } else if target_exists {
            UndoStep::Refuse(concat(record.target_path.as_str(), "：副本已变化，未自动移除"))
        } else {
            UndoStep::Skip
        },
    }
}

// ---------------------------------------------------------------------------
// A target's existing ancestors
// ---------------------------------------------------------------------------
/// Why a target cannot be written below its existing ancestors, if it cannot.
/// `ancestors` lists them from the destination down, each with whether it is
/// a plain directory (`Ok(Some(..))`), missing (`Ok(None)`: the rest will be
/// created) or could not be examined.
pub open spec fn ancestry_error(ancestors: Seq<(String, Result<Option<bool>, String>)>, n: nat) -> Option<Seq<char>>
    decreases n,
{
    if n == 0 {
        None
    } else {
        match ancestry_error(ancestors, (n - 1) as nat) {
            Some(e) => Some(e),
            None => if ancestry_stops(ancestors, (n - 1) as nat) {
                None
            } else {
                match ancestors[n - 1].1 {
                    Err(e) => Some("无法检查目标父目录："@ + e@),
                    Ok(Some(false)) => Some("目标父目录不是可信文件夹："@ + display_text(ancestors[n - 1].0@)),
                    _ => None,
                }
            },
        }
    }
}

/// Some of the first `n` ancestors is missing.
pub open spec fn ancestry_stops(ancestors: Seq<(String, Result<Option<bool>, String>)>, n: nat) -> bool {
    exists|i: int| 0 <= i < n && (#[trigger] ancestors[i]).1 == Ok::<Option<bool>, String>(None)
}

/// Checks a target's existing ancestors (see `ancestry_error`).
pub fn check_target_ancestry(ancestors: &Vec<(String, Result<Option<bool>, String>)>) -> (r: Result<(), String>)
    ensures
        match ancestry_error(ancestors@, ancestors@.len()) {
            Some(e) => r matches Err(m) && m@ == e,
            None => r is Ok,
        },
{
    let mut i: usize = 0;
    while i < ancestors.len()
        invariant
            i <= ancestors@.len(),
            ancestry_error(ancestors@, i as nat) is None,
            !ancestry_stops(ancestors@, i as nat),
        decreases ancestors@.len() - i,
    {
        match &ancestors[i].1 {
            Ok(None) => {
                proof {
                    assert(ancestry_stops(ancestors@, (i + 1) as nat));
                    lemma_ancestry_settled(ancestors@, (i + 1) as nat, ancestors@.len());
                }
                return Ok(());
            },
            Ok(Some(true)) => {},
            Ok(Some(false)) => {
                let shown = display_path(ancestors[i].0.as_str());
                proof {
                    lemma_ancestry_settled(ancestors@, (i + 1) as nat, ancestors@.len());
                }
                return Err(concat("目标父目录不是可信文件夹：", shown.as_str()));
            },
            Err(e) => {
                proof {
                    lemma_ancestry_settled(ancestors@, (i + 1) as nat, ancestors@.len());
                }
                return Err(concat("无法检查目标父目录：", e.as_str()));
            },
        }
        assert(!ancestry_stops(ancestors@, (i + 1) as nat));
        i = i + 1;
    }
    Ok(())
}

proof fn lemma_ancestry_settled(ancestors: Seq<(String, Result<Option<bool>, String>)>, n: nat, m: nat)
    requires
        n <= m,
        ancestry_error(ancestors, n) is Some || ancestry_stops(ancestors, n),
    ensures
        ancestry_error(ancestors, m) == ancestry_error(ancestors, n),
    decreases m,
{
    if n < m {
        lemma_ancestry_settled(ancestors, n, (m - 1) as nat);
        assert(ancestry_stops(ancestors, n) ==> ancestry_stops(ancestors, (m - 1) as nat));
    }
}

// ---------------------------------------------------------------------------
// A move across devices
// ---------------------------------------------------------------------------
/// Whether a member's source may be deleted after its target was verified:
/// it is still the regular file the plan saw and holds the target's content.
pub open spec fn staged_source_ok(
    record: OperationMemberRecord,
    state: Result<EntryState, String>,
    content: Result<FileFingerprint, String>,
) -> bool {
    &&& state matches Ok(s) && !s.is_symlink && s.is_file && s.size_bytes == record.expected_size_bytes
        && s.modified_ms == record.expected_modified_ms
    &&& record.target_snapshot matches Some(t) && content matches Ok(c) && c.size_bytes == t.size_bytes
        && c.sha256@ == t.sha256@
}

/// Checks a source before it is deleted (see `staged_source_ok`).
pub fn staged_source_matches(
    record: &OperationMemberRecord,
    state: &Result<EntryState, String>,
    content: &Result<FileFingerprint, String>,
) -> (r: bool)
    ensures
        r == staged_source_ok(*record, *state, *content),
{
    let file_ok = match state {
        Ok(s) => !s.is_symlink && s.is_file && s.size_bytes == record.expected_size_bytes
            && s.modified_ms == record.expected_modified_ms,
        Err(_) => false,
    };
    let content_ok = match (&record.target_snapshot, content) {
        (Some(t), Ok(c)) => c.size_bytes == t.size_bytes && chars_eq_str(&chars_of(c.sha256.as_str()), t.sha256.as_str()),
        _ => false,
    };
    file_ok && content_ok
}

pub open spec fn with_message(v: MemberRecordView, message: Seq<char>) -> MemberRecordView {
    MemberRecordView { message, ..v }
}

/// The members' records once the sources were deleted, or after a deletion
/// failed (then each says whether its source is still there).
pub open spec fn staged_member_views(records: Seq<MemberRecordView>, left: Option<Seq<bool>>) -> Seq<MemberRecordView> {
    Seq::new(records.len(), |i: int| match left {
        None => with_message(records[i], "已跨盘移动并校验"@),
        Some(l) => with_message(records[i], if i < l.len() && l[i] {
            "目标已校验，源文件仍保留"@
        } else {
            "目标已校验，源文件已删除"@
        }),
    })
}

/// For a failed deletion, whether each member's source is still there.
pub open spec fn sources_left(deletion: Option<(String, Vec<bool>)>) -> Option<Seq<bool>> {
    match deletion {
        None => None,
        Some(d) => Some(d.1@),
    }
}

/// The record of a group moved across devices: every target was committed
/// and verified, then the sources were deleted in order. `deletion` is
/// `None` when every source was deleted, else the first deletion's error and,
/// for each member, whether its source is still there.
pub fn staged_move_group(
    item: &OperationPlanItem,
    records: Vec<OperationMemberRecord>,
    deletion: Option<(String, Vec<bool>)>,
) -> (r: OperationGroupRecord)
    ensures
        group_view(r) == (GroupView {
            group_id: item.group_id@,
            relative_stem: item.relative_stem@,
            action: OrganizerAction::Move,
            status: if deletion is None { OrganizerGroupStatus::Success } else { OrganizerGroupStatus::Partial },
            message: match deletion {
                None => "已跨盘移动并校验 "@ + decimal_text(records@.len() as nat) + " 个文件"@,
                Some(d) => "所有目标均已校验，但删除源文件未全部完成："@ + d.0@,
            },
            members: staged_member_views(record_views(records@), sources_left(deletion)),
        }),
{
    let ghost before = record_views(records@);
    let ghost left: Option<Seq<bool>> = sources_left(deletion);
    let n = records.len();
    let mut out: Vec<OperationMemberRecord> = Vec::new();
    let rest = records;
    let mut i: usize = 0;
    while i < n
        invariant
            n == before.len(),
            i <= n,
            rest@.len() == n,
            record_views(rest@) == before,
            record_views(out@) == staged_member_views(before, left).subrange(0, i as int),
            left == sources_left(deletion),
        decreases n - i,
    {
        let source_left = match &deletion {
            None => false,
            Some(d) => i < d.1.len() && d.1[i],
        };
        let message = match &deletion {
            None => "已跨盘移动并校验".to_owned(),
            Some(_) => if source_left {
                "目标已校验，源文件仍保留".to_owned()
            } else {
                "目标已校验，源文件已删除".to_owned()
            },
        };
        let r = &rest[i];
        let rec = OperationMemberRecord {
            kind: r.kind,
            source_path: r.source_path.clone(),
            target_path: r.target_path.clone(),
            expected_size_bytes: r.expected_size_bytes,
            expected_modified_ms: r.expected_modified_ms,
            target_snapshot: match &r.target_snapshot {
                Some(t) => Some(FileFingerprint { size_bytes: t.size_bytes, modified_ms: t.modified_ms, sha256: t.sha256.clone() }),
                None => None,
            },
            message,
        };
        proof {
            assert(record_views(rest@)[i as int] == record_view(rest@[i as int]));
            assert(record_view(rec) == staged_member_views(before, left)[i as int]);
        }
        let ghost old_out = out@;
        let ghost rv = record_view(rec);
        out.push(rec);
        assert(record_views(out@) =~= record_views(old_out).push(rv));
        assert(staged_member_views(before, left).subrange(0, i + 1) =~= staged_member_views(before, left).subrange(0, i as int).push(rv));
        assert(record_views(out@) =~= staged_member_views(before, left).subrange(0, i + 1));
        i = i + 1;
    }
    assert(staged_member_views(before, left).subrange(0, n as int) =~= staged_member_views(before, left));
    match deletion {
        None => {
            let count = decimal(n as u64);
            let message = concat3("已跨盘移动并校验 ", count.as_str(), " 个文件");
            move_result_group(item, OrganizerGroupStatus::Success, message, out)
        },
        Some((error, _)) => {
            let message = concat("所有目标均已校验，但删除源文件未全部完成：", error.as_str());
            move_result_group(item, OrganizerGroupStatus::Partial, message, out)
        },
    }
}

// ---------------------------------------------------------------------------
// Which members a recovery acts on
// ---------------------------------------------------------------------------
/// The recorded group with this id: the first one, or the error naming the
/// missing id.
pub fn find_recorded_group(groups: &Vec<OperationGroupRecord>, group_id: &str) -> (r: Result<usize, String>)
    ensures
        r matches Ok(i) ==> i < groups@.len() && groups@[i as int].group_id@ == group_id@
            && forall|j: int| 0 <= j < i ==> (#[trigger] groups@[j]).group_id@ != group_id@,
        r matches Err(e) ==> e@ == "操作历史中不存在照片组："@ + group_id@
            && forall|j: int| 0 <= j < groups@.len() ==> (#[trigger] groups@[j]).group_id@ != group_id@,
{
    let key = chars_of(group_id);
    let mut i: usize = 0;
    while i < groups.len()
        invariant
            i <= groups@.len(),
            key@ == group_id@,
            forall|j: int| 0 <= j < i ==> (#[trigger] groups@[j]).group_id@ != group_id@,
        decreases groups@.len() - i,
    {
        if chars_eq(&chars_of(groups[i].group_id.as_str()), &key) {
            return Ok(i);
        }
        i = i + 1;
    }
    Err(concat("操作历史中不存在照片组：", group_id))
}

// ---------------------------------------------------------------------------
// The recovery plan of a group
// ---------------------------------------------------------------------------
/// The indices, in order, of the first `n` members that have a recorded
/// target (the ones a recovery can act on).
pub open spec fn recoverable_indices(members: Seq<OperationMemberRecord>, n: nat) -> Seq<int>
    decreases n,
{
    if n == 0 {
        seq![]
    } else if members[n - 1].target_snapshot is Some {
        recoverable_indices(members, (n - 1) as nat).push(n - 1)
    } else {
        recoverable_indices(members, (n - 1) as nat)
    }
}

/// The first error among the checks, if any.
pub open spec fn first_error(checks: Seq<Result<(), String>>, n: nat) -> Option<Seq<char>>
    decreases n,
{
    if n == 0 {
        None
    } else {
        match first_error(checks, (n - 1) as nat) {
            Some(e) => Some(e),
            None => match checks[n - 1] {
                Err(e) => Some(e@),
                Ok(_) => None,
            },
        }
    }
}

/// What a recovery does with a group: refuse it as a whole, with a result
/// for each recoverable member, or act on these members in order.
#[derive(Debug)]
pub enum RecoveryPlan {
    Refused(Vec<RecoveryMemberResult>),
    Act(Vec<usize>),
}

pub struct ResultView {
    pub source: Seq<char>,
    pub target: Seq<char>,
    pub success: bool,
    pub message: Seq<char>,
}

pub open spec fn result_views(s: Seq<RecoveryMemberResult>) -> Seq<ResultView> {
    s.map_values(|m: RecoveryMemberResult| ResultView { source: m.source_path@, target: m.target_path@, success: m.success, message: m.message@ })
}

/// Which members of a recorded group a recovery acts on. A restore checks
/// the whole group first (`preflight`: one check per recoverable member, in
/// order): if any check failed, no file is touched and every recoverable
/// member fails with the first check's error. Otherwise, and for undoing a
/// copy, every member with a recorded target is acted on, in order.
pub fn plan_group_recovery(
    members: &Vec<OperationMemberRecord>,
    kind: RecoveryKind,
    preflight: &Vec<Result<(), String>>,
) -> (r: RecoveryPlan)
    ensures
        kind != RecoveryKind::UndoCopy && first_error(preflight@, preflight@.len()) is Some ==> (r matches RecoveryPlan::Refused(v)
            && result_views(v@) == recoverable_indices(members@, members@.len()).map_values(|i: int| ResultView {
                source: members@[i].source_path@,
                target: members@[i].target_path@,
                success: false,
                message: "照片组恢复预检未通过："@ + first_error(preflight@, preflight@.len())->0,
            })),
        !(kind != RecoveryKind::UndoCopy && first_error(preflight@, preflight@.len()) is Some) ==> (r matches RecoveryPlan::Act(v)
            && v@.map_values(|i: usize| i as int) == recoverable_indices(members@, members@.len())),
{
    let mut error: Option<String> = None;
    if kind != RecoveryKind::UndoCopy {
        let mut k: usize = 0;
        while k < preflight.len()
            invariant
                k <= preflight@.len(),
                match first_error(preflight@, k as nat) {
                    Some(e) => error matches Some(m) && m@ == e,
                    None => error is None,
                },
            decreases preflight@.len() - k,
        {
            if error.is_none() {
                if let Err(e) = &preflight[k] {
                    error = Some(e.clone());
                }
            }
            k = k + 1;
        }
    }
    let mut indices: Vec<usize> = Vec::new();
    let mut i: usize = 0;
    while i < members.len()
        invariant
            i <= members@.len(),
            indices@.map_values(|x: usize| x as int) == recoverable_indices(members@, i as nat),
            forall|j: int| 0 <= j < indices@.len() ==> (#[trigger] indices@[j]) < i,
        decreases members@.len() - i,
    {
        if members[i].target_snapshot.is_some() {
            indices.push(i);
            assert(indices@.map_values(|x: usize| x as int) =~= recoverable_indices(members@, i as nat).push(i as int));
        }
        i = i + 1;
    }
    match error {
        None => {
            assert(!(kind != RecoveryKind::UndoCopy && first_error(preflight@, preflight@.len()) is Some));
            RecoveryPlan::Act(indices)
        },
        Some(e) => {
            let ghost rec = recoverable_indices(members@, members@.len());
            let message = concat("照片组恢复预检未通过：", e.as_str());
            let mut results: Vec<RecoveryMemberResult> = Vec::new();
            let mut j: usize = 0;
            while j < indices.len()
                invariant
                    j <= indices@.len(),
                    indices@.map_values(|x: usize| x as int) == rec,
                    forall|t: int| 0 <= t < indices@.len() ==> (#[trigger] indices@[t]) < members@.len(),
                    result_views(results@) == rec.subrange(0, j as int).map_values(|i: int| ResultView {
                        source: members@[i].source_path@,
                        target: members@[i].target_path@,
                        success: false,
                        message: message@,
                    }),
                decreases indices@.len() - j,
            {
                let m = &members[indices[j]];
                assert(indices@.map_values(|x: usize| x as int)[j as int] == indices@[j as int] as int);
                let ghost old_results = results@;
                let res = RecoveryMemberResult {
                    source_path: m.source_path.clone(),
                    target_path: m.target_path.clone(),
                    success: false,
                    message: message.clone(),
                };
                let ghost fv = ResultView { source: res.source_path@, target: res.target_path@, success: false, message: message@ };
                results.push(res);
                assert(result_views(results@) =~= result_views(old_results).push(fv));
                assert(rec[j as int] == indices@[j as int] as int);
                assert(result_views(results@) =~= rec.subrange(0, j + 1).map_values(|i: int| ResultView {
                    source: members@[i].source_path@,
                    target: members@[i].target_path@,
                    success: false,
                    message: message@,
                }));
                j = j + 1;
            }
            assert(rec.subrange(0, rec.len() as int) =~= rec);
            RecoveryPlan::Refused(results)
        },
    }
}

} // verus!
