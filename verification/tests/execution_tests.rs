use framepair::execution::{
    created_sidecar_record, destination_sync_placement, group_work, groups_to_undo, synced_message, trash_group,
    GroupWork, SyncPlacement,
};
use framepair::history::{FileFingerprint, OperationGroupRecord, OperationMemberRecord, OrganizerAction, OrganizerGroupStatus};
use framepair::operation_plan::{OperationPlanItem, OperationPlanStatus, PlannedMember, PlannedSyncAction, SyncTiming};
use framepair::organizer::ValidatedMember;
use framepair::pair_cleanup::CleanupDestination;
use framepair::rating_rules::{RuleAction, RuleMemberKind};
use framepair::rating_sync::RatingSyncTarget;

fn item() -> OperationPlanItem {
    OperationPlanItem {
        group_id: "g1".to_string(),
        relative_stem: "day/a".to_string(),
        rating: Some(1),
        frame_pair: 1,
        jpeg_metadata: None,
        raw_xmp: None,
        matched_rule_ids: vec!["r1".to_string()],
        matched_rule_names: vec!["清理".to_string()],
        terminal_action: Some(RuleAction::Cleanup),
        status: OperationPlanStatus::Ready,
        members: vec![PlannedMember {
            kind: RuleMemberKind::Raw,
            source_relative_path: "day/a.NEF".to_string(),
            target_path: None,
            size_bytes: 3,
            modified_ms: Some(9),
        }],
        missing_kinds: vec![],
        sync_actions: vec![],
        issues: vec![],
    }
}

fn validated(name: &str) -> ValidatedMember {
    ValidatedMember {
        kind: RuleMemberKind::Raw,
        source: format!("/root/day/{name}"),
        target: String::new(),
        expected_size_bytes: 3,
        expected_modified_ms: Some(9),
    }
}

fn group(action: OrganizerAction, status: OrganizerGroupStatus, members: Vec<OperationMemberRecord>) -> OperationGroupRecord {
    OperationGroupRecord {
        group_id: "g1".to_string(),
        relative_stem: "day/a".to_string(),
        action,
        status,
        message: String::new(),
        members,
    }
}

fn committed(kind: RuleMemberKind, name: &str) -> OperationMemberRecord {
    OperationMemberRecord {
        kind,
        source_path: format!("/root/day/{name}"),
        target_path: format!("/out/day/{name}"),
        expected_size_bytes: 3,
        expected_modified_ms: Some(9),
        target_snapshot: Some(FileFingerprint { size_bytes: 3, modified_ms: Some(10), sha256: "ab".to_string() }),
        message: "已复制并校验".to_string(),
    }
}

#[test]
fn each_rule_action_gets_its_work() {
    assert!(matches!(group_work(Some(RuleAction::Copy), None), GroupWork::Copy));
    assert!(matches!(group_work(Some(RuleAction::Move), None), GroupWork::Move));
    assert!(matches!(group_work(Some(RuleAction::Cleanup), Some(CleanupDestination::Quarantine)), GroupWork::Quarantine));
    assert!(matches!(group_work(Some(RuleAction::Cleanup), Some(CleanupDestination::Trash)), GroupWork::Trash));
    match group_work(Some(RuleAction::Cleanup), None) {
        GroupWork::Fail(action, error) => {
            assert_eq!(action, OrganizerAction::Trash);
            assert_eq!(error, "待清理目标缺失");
        }
        _ => panic!("a cleanup needs a destination"),
    }
    match group_work(Some(RuleAction::Keep), None) {
        GroupWork::Fail(action, error) => {
            assert_eq!(action, OrganizerAction::Copy);
            assert_eq!(error, "当前仅允许执行复制、移动或清理");
        }
        _ => panic!("keep groups are not executed"),
    }
}

#[test]
fn a_trash_group_stops_at_the_first_refused_file() {
    let members = vec![validated("a.NEF"), validated("a.NEF.xmp"), validated("a.JPG")];
    let done = trash_group(&item(), &members, None, &vec![true, true, true]);
    assert_eq!(done.status, OrganizerGroupStatus::Success);
    assert_eq!(done.message, "已将 3 个文件移入系统回收站/废纸篓");
    let stopped = trash_group(&item(), &members, Some((1, "移入系统回收站/废纸篓失败：权限不足".to_string())), &vec![true, false, false]);
    assert_eq!(stopped.status, OrganizerGroupStatus::Partial);
    assert_eq!(stopped.message, "1 / 3 个文件已进入系统回收站；移入系统回收站/废纸篓失败：权限不足");
    assert_eq!(stopped.members[2].message, "因同组前序文件失败而停止清理");
    assert!(stopped.members.iter().all(|m| m.target_path.is_empty() && m.target_snapshot.is_none()));
    let none = trash_group(&item(), &members, Some((0, "坏".to_string())), &vec![false, false, false]);
    assert_eq!(none.status, OrganizerGroupStatus::Failed);
    assert_eq!(none.message, "0 / 3 个文件已进入系统回收站；坏");
}

#[test]
fn only_changed_groups_are_undone_when_history_cannot_be_saved() {
    let groups = vec![
        group(OrganizerAction::Copy, OrganizerGroupStatus::Success, vec![]),
        group(OrganizerAction::Move, OrganizerGroupStatus::Failed, vec![]),
        group(OrganizerAction::Trash, OrganizerGroupStatus::Success, vec![]),
        group(OrganizerAction::Quarantine, OrganizerGroupStatus::Partial, vec![]),
    ];
    assert_eq!(groups_to_undo(&groups), vec![0, 3]);
}

#[test]
fn destination_rating_writes_land_on_committed_files() {
    let g = group(
        OrganizerAction::Copy,
        OrganizerGroupStatus::Success,
        vec![committed(RuleMemberKind::Jpeg, "a.JPG"), committed(RuleMemberKind::Raw, "a.NEF")],
    );
    let on_jpg = PlannedSyncAction {
        target: RatingSyncTarget::JpegMetadata,
        target_path: "/out/day/a.JPG".to_string(),
        target_rating: 4,
        timing: SyncTiming::Destination,
    };
    assert!(matches!(destination_sync_placement(&g, "/out", &on_jpg), Ok(SyncPlacement::Member(0))));
    let new_xmp = PlannedSyncAction {
        target: RatingSyncTarget::RawXmp,
        target_path: "/out/day/a.xmp".to_string(),
        target_rating: 4,
        timing: SyncTiming::Destination,
    };
    match destination_sync_placement(&g, "/out", &new_xmp) {
        Ok(SyncPlacement::NewRawXmp(source, target)) => {
            assert_eq!(source, "/root/day/a.xmp");
            assert_eq!(target, "/out/day/a.xmp");
        }
        _ => panic!("the sidecar belongs next to the committed RAW"),
    }
    let outside = PlannedSyncAction { target_path: "/elsewhere/a.xmp".to_string(), ..new_xmp };
    assert_eq!(destination_sync_placement(&g, "/out", &outside).unwrap_err(), "评分同步目标超出了规则目标目录");
    let early = PlannedSyncAction { timing: SyncTiming::Source, ..on_jpg };
    assert_eq!(destination_sync_placement(&g, "/out", &early).unwrap_err(), "评分同步目标不是复制或移动后的文件");
    assert_eq!(synced_message("已复制并校验", 4), "已复制并校验；评分已同步为 4 星");
    let record = created_sidecar_record(
        "/root/day/a.xmp",
        "/out/day/a.xmp",
        FileFingerprint { size_bytes: 1, modified_ms: None, sha256: "cd".to_string() },
        4,
    );
    assert_eq!(record.kind, RuleMemberKind::Xmp);
    assert_eq!(record.message, "已在目标位置创建 4 星 RAW XMP");
}
