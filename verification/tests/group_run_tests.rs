use framepair::content_hash::{lower_hex, sha256_hex};
use framepair::group_run::{
    check_target_ancestry, copy_undo_step, find_recorded_group, rename_undo_step, UndoStep,
    commit_start, commit_step, copied_group, plan_group_recovery, rename_failure, rename_member_check,
    staged_move_group, staged_source_matches, CommitAction, CommitEvent, RecoveryPlan, RollbackStyle,
};
use framepair::history::{
    FileFingerprint, OperationMemberRecord, OrganizerAction, OrganizerGroupStatus, RecoveryKind,
};
use framepair::operation_plan::{OperationPlanItem, OperationPlanStatus, PlannedMember};
use framepair::organizer::{trusted_quarantine_target, EntryState, ValidatedMember};
use framepair::rating_rules::{RuleAction, RuleMemberKind};

fn planned(name: &str) -> PlannedMember {
    PlannedMember {
        kind: RuleMemberKind::Jpeg,
        source_relative_path: format!("day/{name}"),
        target_path: Some(format!("/out/day/{name}")),
        size_bytes: 3,
        modified_ms: Some(9),
    }
}

fn item() -> OperationPlanItem {
    OperationPlanItem {
        group_id: "g1".to_string(),
        relative_stem: "day/a".to_string(),
        rating: Some(5),
        frame_pair: 5,
        jpeg_metadata: None,
        raw_xmp: None,
        matched_rule_ids: vec!["r1".to_string()],
        matched_rule_names: vec!["移动".to_string()],
        terminal_action: Some(RuleAction::Move),
        status: OperationPlanStatus::Ready,
        members: vec![planned("a.JPG"), planned("a.NEF")],
        missing_kinds: vec![],
        sync_actions: vec![],
        issues: vec![],
    }
}

fn record(name: &str, snapshot: bool) -> OperationMemberRecord {
    OperationMemberRecord {
        kind: RuleMemberKind::Jpeg,
        source_path: format!("/root/day/{name}"),
        target_path: format!("/out/day/{name}"),
        expected_size_bytes: 3,
        expected_modified_ms: Some(9),
        target_snapshot: if snapshot {
            Some(FileFingerprint { size_bytes: 3, modified_ms: Some(10), sha256: "ab".to_string() })
        } else {
            None
        },
        message: "已原子移动".to_string(),
    }
}

#[test]
fn a_group_run_commits_every_member_before_it_succeeds() {
    let item = item();
    let (run, next) = commit_start(2);
    assert!(matches!(next, CommitAction::Commit(0)));
    let (run, next) = commit_step(&item, OrganizerAction::Move, RollbackStyle::KeepPartial, run, CommitEvent::Committed(record("a.JPG", true)));
    assert!(matches!(next, CommitAction::Commit(1)));
    let (run, next) = commit_step(&item, OrganizerAction::Move, RollbackStyle::KeepPartial, run, CommitEvent::Committed(record("a.NEF", true)));
    assert!(matches!(next, CommitAction::Done(None)));
    assert_eq!(run.records.len(), 2);
    assert!(matches!(commit_start(0).1, CommitAction::Done(None)));
}

#[test]
fn a_failed_member_undoes_the_group() {
    let item = item();
    let (run, _) = commit_start(2);
    let (run, _) = commit_step(&item, OrganizerAction::Move, RollbackStyle::KeepPartial, run, CommitEvent::Committed(record("a.JPG", true)));
    let (clean, dirty) = rename_failure("设备忙");
    let (run, next) = commit_step(&item, OrganizerAction::Move, RollbackStyle::KeepPartial, run, CommitEvent::Failed(clean, dirty));
    assert!(matches!(next, CommitAction::RollBack));
    assert_eq!(run.records.len(), 1);
    let (_, done) = commit_step(&item, OrganizerAction::Move, RollbackStyle::KeepPartial, run, CommitEvent::RolledBack(vec![]));
    match done {
        CommitAction::Done(Some(group)) => {
            assert_eq!(group.status, OrganizerGroupStatus::Failed);
            assert_eq!(group.message, "移动文件失败：设备忙；已回滚");
            assert_eq!(group.members.len(), 2);
            assert!(group.members.iter().all(|m| m.target_snapshot.is_none()));
        }
        _ => panic!("the run should end"),
    }
}

#[test]
fn an_incomplete_undo_keeps_a_move_partial_and_a_copy_failed() {
    let item = item();
    let (run, _) = commit_start(2);
    let (run, _) = commit_step(&item, OrganizerAction::Move, RollbackStyle::KeepPartial, run, CommitEvent::Committed(record("a.JPG", true)));
    let (run, _) = commit_step(&item, OrganizerAction::Move, RollbackStyle::KeepPartial, run, CommitEvent::Failed("坏".to_string(), "坏；回滚不完整：".to_string()));
    let (_, done) = commit_step(&item, OrganizerAction::Move, RollbackStyle::KeepPartial, run, CommitEvent::RolledBack(vec!["x：目标已变化".to_string()]));
    match done {
        CommitAction::Done(Some(group)) => {
            assert_eq!(group.status, OrganizerGroupStatus::Partial);
            assert_eq!(group.message, "坏；回滚不完整：x：目标已变化");
            assert_eq!(group.members.len(), 1);
        }
        _ => panic!("the run should end"),
    }
    let (run, _) = commit_start(2);
    let (run, _) = commit_step(&item, OrganizerAction::Copy, RollbackStyle::FailWhole, run, CommitEvent::Committed(record("a.JPG", true)));
    let (run, _) = commit_step(&item, OrganizerAction::Copy, RollbackStyle::FailWhole, run, CommitEvent::Failed("坏".to_string(), "坏；回滚失败：".to_string()));
    let (_, done) = commit_step(&item, OrganizerAction::Copy, RollbackStyle::FailWhole, run, CommitEvent::RolledBack(vec!["y".to_string()]));
    match done {
        CommitAction::Done(Some(group)) => {
            assert_eq!(group.status, OrganizerGroupStatus::Failed);
            assert_eq!(group.message, "坏；回滚失败：y");
            assert_eq!(group.members.len(), 2);
        }
        _ => panic!("the run should end"),
    }
}

#[test]
fn copied_groups_count_their_files() {
    let group = copied_group(&item(), vec![record("a.JPG", true)]);
    assert_eq!(group.status, OrganizerGroupStatus::Success);
    assert_eq!(group.message, "已复制并校验 1 个文件");
}

#[test]
fn rename_checks_refuse_taken_targets_and_changed_sources() {
    let member = ValidatedMember {
        kind: RuleMemberKind::Jpeg,
        source: "/root/day/a.JPG".to_string(),
        target: "/out/day/a.JPG".to_string(),
        expected_size_bytes: 3,
        expected_modified_ms: Some(9),
    };
    let same = Ok(EntryState { is_symlink: false, is_file: true, size_bytes: 3, modified_ms: Some(9) });
    let grown = Ok(EntryState { is_symlink: false, is_file: true, size_bytes: 4, modified_ms: Some(9) });
    assert_eq!(rename_member_check(&member, &Ok(false), &same), Ok(()));
    assert_eq!(
        rename_member_check(&member, &Ok(true), &same),
        Err(("目标路径已存在：/out/day/a.JPG".to_string(), "目标路径已存在：/out/day/a.JPG；回滚不完整：".to_string()))
    );
    assert_eq!(
        rename_member_check(&member, &Ok(false), &grown).unwrap_err().0,
        "移动源文件发生变化，已回滚"
    );
    assert_eq!(
        rename_member_check(&member, &Ok(false), &Err("权限不足".to_string())).unwrap_err().0,
        "移动源文件不可访问：权限不足"
    );
}

#[test]
fn a_move_across_devices_reports_the_sources_left() {
    let done = staged_move_group(&item(), vec![record("a.JPG", true), record("a.NEF", true)], None);
    assert_eq!(done.status, OrganizerGroupStatus::Success);
    assert_eq!(done.message, "已跨盘移动并校验 2 个文件");
    assert!(done.members.iter().all(|m| m.message == "已跨盘移动并校验"));
    let partial = staged_move_group(
        &item(),
        vec![record("a.JPG", true), record("a.NEF", true)],
        Some(("源文件在删除前发生变化".to_string(), vec![false, true])),
    );
    assert_eq!(partial.status, OrganizerGroupStatus::Partial);
    assert_eq!(partial.message, "所有目标均已校验，但删除源文件未全部完成：源文件在删除前发生变化");
    assert_eq!(partial.members[0].message, "目标已校验，源文件已删除");
    assert_eq!(partial.members[1].message, "目标已校验，源文件仍保留");
    let state = Ok(EntryState { is_symlink: false, is_file: true, size_bytes: 3, modified_ms: Some(9) });
    let same = Ok(FileFingerprint { size_bytes: 3, modified_ms: Some(9), sha256: "ab".to_string() });
    let other = Ok(FileFingerprint { size_bytes: 3, modified_ms: Some(9), sha256: "cd".to_string() });
    assert!(staged_source_matches(&record("a.JPG", true), &state, &same));
    assert!(!staged_source_matches(&record("a.JPG", true), &state, &other));
}

#[test]
fn a_failed_preflight_leaves_the_whole_group_untouched() {
    let members = vec![record("a.JPG", true), record("b.JPG", false), record("a.NEF", true)];
    let refused = plan_group_recovery(
        &members,
        RecoveryKind::RestoreMove,
        &vec![Ok(()), Err("原位置已有文件：/root/day/a.NEF".to_string())],
    );
    match refused {
        RecoveryPlan::Refused(results) => {
            assert_eq!(results.len(), 2);
            assert!(results.iter().all(|r| !r.success));
            assert_eq!(results[1].message, "照片组恢复预检未通过：原位置已有文件：/root/day/a.NEF");
        }
        RecoveryPlan::Act(_) => panic!("the group should be refused"),
    }
    match plan_group_recovery(&members, RecoveryKind::RestoreMove, &vec![Ok(()), Ok(())]) {
        RecoveryPlan::Act(indices) => assert_eq!(indices, vec![0, 2]),
        RecoveryPlan::Refused(_) => panic!("the group should be restored"),
    }
    match plan_group_recovery(&members, RecoveryKind::UndoCopy, &vec![Err("x".to_string())]) {
        RecoveryPlan::Act(indices) => assert_eq!(indices, vec![0, 2]),
        RecoveryPlan::Refused(_) => panic!("undoing a copy has no preflight"),
    }
}

#[test]
fn quarantine_targets_stay_inside_their_operation() {
    let root = "/raw/.framepair-quarantine/1-1";
    assert_eq!(trusted_quarantine_target(root, "/raw/.framepair-quarantine/1-1/a.NEF"), Ok("/raw/.framepair-quarantine/1-1/a.NEF".to_string()));
    assert_eq!(trusted_quarantine_target(root, "a.NEF").unwrap_err(), "历史记录中的隔离路径无效");
    assert_eq!(trusted_quarantine_target(root, "/raw/.framepair-quarantine/1-1/../x").unwrap_err(), "历史记录中的隔离路径无效");
    assert_eq!(trusted_quarantine_target(root, "/raw/other/a.NEF").unwrap_err(), "历史记录中的隔离路径超出了本次操作目录");
    assert_eq!(trusted_quarantine_target(root, root).unwrap_err(), "历史记录中的隔离路径超出了本次操作目录");
}

#[test]
fn content_hashes_are_lower_case_sha256_hex() {
    assert_eq!(sha256_hex(b""), "e3b0c44298fc1c149afbf4c8996fb92427ae41e4649b934ca495991b7852b855");
    assert_eq!(sha256_hex(b"abc"), "ba7816bf8f01cfea414140de5dae2223b00361a396177a9cb410ff61f20015ad");
    assert_eq!(lower_hex(&[0x00, 0x0f, 0xa0, 0xff]), "000fa0ff");
}

#[test]
fn undo_steps_touch_only_what_was_committed() {
    let moved = record("a.JPG", true);
    let same = Ok(FileFingerprint { size_bytes: 3, modified_ms: Some(11), sha256: "ab".to_string() });
    let other = Ok(FileFingerprint { size_bytes: 3, modified_ms: Some(11), sha256: "cd".to_string() });
    assert_eq!(rename_undo_step(&moved, false, &same), UndoStep::Undo);
    assert_eq!(rename_undo_step(&moved, true, &same), UndoStep::Refuse("/root/day/a.JPG：原位置已被占用".to_string()));
    assert_eq!(rename_undo_step(&moved, false, &other), UndoStep::Refuse("/out/day/a.JPG：目标已变化".to_string()));
    assert_eq!(rename_undo_step(&record("b.JPG", false), false, &same), UndoStep::Skip);
    assert_eq!(copy_undo_step(&moved, true, &same), UndoStep::Undo);
    assert_eq!(copy_undo_step(&moved, true, &other), UndoStep::Refuse("/out/day/a.JPG：副本已变化，未自动移除".to_string()));
    assert_eq!(copy_undo_step(&moved, false, &Err("gone".to_string())), UndoStep::Skip);
}

#[test]
fn target_ancestors_must_be_plain_directories() {
    assert_eq!(check_target_ancestry(&vec![("/out/day".to_string(), Ok(Some(true)))]), Ok(()));
    assert_eq!(
        check_target_ancestry(&vec![("/out/day".to_string(), Ok(Some(false)))]).unwrap_err(),
        "目标父目录不是可信文件夹：/out/day"
    );
    assert_eq!(
        check_target_ancestry(&vec![("/out/new".to_string(), Ok(None)), ("/out/new/x".to_string(), Ok(Some(false)))]),
        Ok(())
    );
    assert_eq!(
        check_target_ancestry(&vec![("/out/day".to_string(), Err("权限不足".to_string()))]).unwrap_err(),
        "无法检查目标父目录：权限不足"
    );
}

#[test]
fn recorded_groups_are_found_by_id() {
    let groups = vec![copied_group(&item(), vec![])];
    assert_eq!(find_recorded_group(&groups, "g1"), Ok(0));
    assert_eq!(find_recorded_group(&groups, "g2").unwrap_err(), "操作历史中不存在照片组：g2");
}
