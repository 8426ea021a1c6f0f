use framepair::history::{
    FileFingerprint, OperationGroupRecord, OperationManifest, OperationMemberRecord, OrganizerAction,
    OrganizerGroupStatus, RecoveryKind, RecoveryRecord, check_recovery_append, expected_recovery_kind,
    recoverable_count, valid_id, validate_manifest, validate_recoveries, order_history,
    OperationHistoryEntry,
};
use framepair::operation_plan::OperationSyncPreference;
use framepair::rating_rules::RuleMemberKind;

fn group(group_id: &str, action: OrganizerAction) -> OperationGroupRecord {
    OperationGroupRecord {
        group_id: group_id.to_string(),
        relative_stem: format!("album/{group_id}"),
        action,
        status: OrganizerGroupStatus::Success,
        message: "处理完成".to_string(),
        members: vec![OperationMemberRecord {
            kind: RuleMemberKind::Jpeg,
            source_path: format!("/source/{group_id}.jpg"),
            target_path: format!("/target/{group_id}.jpg"),
            expected_size_bytes: 4,
            expected_modified_ms: Some(100),
            target_snapshot: Some(FileFingerprint { size_bytes: 4, modified_ms: Some(200), sha256: "abcd".to_string() }),
            message: "已移动".to_string(),
        }],
    }
}

fn manifest(operation_id: &str, groups: Vec<OperationGroupRecord>) -> OperationManifest {
    OperationManifest::new(
        operation_id.to_string(),
        "plan-1".to_string(),
        "/source".to_string(),
        1000,
        vec![],
        OperationSyncPreference::default(),
        groups,
    )
}

fn recovery(operation_id: &str, group_id: &str, kind: RecoveryKind, status: OrganizerGroupStatus) -> RecoveryRecord {
    RecoveryRecord {
        operation_id: operation_id.to_string(),
        group_id: group_id.to_string(),
        kind,
        created_at_ms: 2000,
        status,
        message: String::new(),
        members: vec![],
    }
}

#[test]
fn operation_ids_are_ascii_letters_digits_and_dashes() {
    assert!(valid_id("1000-1-1"));
    assert!(valid_id("abc-XYZ"));
    assert!(!valid_id(""));
    assert!(!valid_id("../x"));
    assert!(!valid_id("a b"));
    assert!(!valid_id("编号"));
}

#[test]
fn manifests_must_match_their_directory_and_hold_distinct_groups() {
    let m = manifest("op-1", vec![group("g1", OrganizerAction::Move)]);
    assert!(validate_manifest(&m, "op-1").is_ok());
    assert_eq!(validate_manifest(&m, "op-2").unwrap_err(), "评分整理历史编号与目录不一致");
    let mut old = manifest("op-1", vec![]);
    old.version = 2;
    assert_eq!(validate_manifest(&old, "op-1").unwrap_err(), "不支持评分整理历史版本 2");
    let twice = manifest("op-1", vec![group("g1", OrganizerAction::Move), group("g1", OrganizerAction::Copy)]);
    assert_eq!(validate_manifest(&twice, "op-1").unwrap_err(), "评分整理历史包含空白或重复照片组");
}

#[test]
fn cleanup_history_recovers_quarantine_but_never_system_trash() {
    assert_eq!(expected_recovery_kind(OrganizerAction::Quarantine), Some(RecoveryKind::RestoreQuarantine));
    assert_eq!(expected_recovery_kind(OrganizerAction::Trash), None);
    let m = manifest("op-1", vec![group("q", OrganizerAction::Quarantine), group("t", OrganizerAction::Trash)]);
    assert_eq!(recoverable_count(&m, &vec![]), 1);
    let trash = vec![recovery("op-1", "t", RecoveryKind::RestoreQuarantine, OrganizerGroupStatus::Success)];
    assert_eq!(validate_recoveries(&m, &trash).unwrap_err(), "系统回收站操作不支持应用内恢复");
}

#[test]
fn recoveries_must_fit_the_operation_and_happen_once() {
    let m = manifest("op-1", vec![group("g1", OrganizerAction::Move)]);
    let done = vec![recovery("op-1", "g1", RecoveryKind::RestoreMove, OrganizerGroupStatus::Success)];
    assert_eq!(recoverable_count(&m, &done), 0);
    let again = recovery("op-1", "g1", RecoveryKind::RestoreMove, OrganizerGroupStatus::Success);
    assert_eq!(check_recovery_append(&m, &done, &again).unwrap_err(), "该照片组已经完成恢复或撤销");
    let wrong_kind = recovery("op-1", "g1", RecoveryKind::UndoCopy, OrganizerGroupStatus::Success);
    assert_eq!(check_recovery_append(&m, &vec![], &wrong_kind).unwrap_err(), "恢复记录类型与原操作不一致");
    let unknown = recovery("op-1", "zz", RecoveryKind::RestoreMove, OrganizerGroupStatus::Success);
    assert_eq!(check_recovery_append(&m, &vec![], &unknown).unwrap_err(), "恢复记录指向未知照片组");
    let other_op = recovery("op-2", "g1", RecoveryKind::RestoreMove, OrganizerGroupStatus::Success);
    assert_eq!(check_recovery_append(&m, &vec![], &other_op).unwrap_err(), "恢复记录与评分整理操作不一致");
    let first = recovery("op-1", "g1", RecoveryKind::RestoreMove, OrganizerGroupStatus::Failed);
    assert!(check_recovery_append(&m, &vec![], &first).is_ok());
}

fn entry(operation_id: &str, created_at_ms: u64) -> OperationHistoryEntry {
    let mut m = manifest(operation_id, vec![group("g", OrganizerAction::Copy)]);
    m.created_at_ms = created_at_ms;
    OperationHistoryEntry { manifest: m, recoveries: vec![], recoverable_groups: 1 }
}

#[test]
fn history_lists_newest_first_then_by_larger_id() {
    let ordered = order_history(vec![
        entry("op-a", 100),
        entry("op-c", 300),
        entry("op-b", 300),
        entry("op-d", 200),
    ]);
    let ids: Vec<&str> = ordered.iter().map(|e| e.manifest.operation_id.as_str()).collect();
    assert_eq!(ids, vec!["op-c", "op-b", "op-d", "op-a"]);
}

#[test]
fn operation_history_appends_recovery_without_rewriting_manifest() {
    let original = manifest("operation-1", vec![group("move-group", OrganizerAction::Move)]);
    assert!(validate_manifest(&original, "operation-1").is_ok());
    let restored = recovery("operation-1", "move-group", RecoveryKind::RestoreMove, OrganizerGroupStatus::Success);
    assert!(check_recovery_append(&original, &vec![], &restored).is_ok());
    let recoveries = vec![restored];
    assert!(validate_recoveries(&original, &recoveries).is_ok());
    assert_eq!(recoverable_count(&original, &recoveries), 0);
    assert_eq!(original.groups.len(), 1);
    assert_eq!(original.groups[0].group_id, "move-group");
    let missing = recovery("operation-1", "missing", RecoveryKind::RestoreMove, OrganizerGroupStatus::Failed);
    assert!(check_recovery_append(&original, &recoveries, &missing).is_err());
}
