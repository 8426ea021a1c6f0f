use framepair::history::{
    OperationGroupRecord, OrganizerAction, OrganizerGroupStatus, RecoveryKind, RecoveryMemberResult,
};
use framepair::operation_plan::{OperationPlanItem, OperationPlanStatus, PlannedMember};
use framepair::organizer::{
    check_recovery_group, check_target_inside, recovery_message, recovery_status, trusted_history_source, trusted_history_target, validate_recovery_selection,
    execution_summary, failed_group, group_after_rollback, moved_group, persist_failure_message,
    validate_cleanup_sources, validate_group, with_sync_failure, EntryState, SourceProbe,
};
use framepair::rating_rules::{RatingCondition, RatingRule, RuleAction, RuleMemberKind};

fn item() -> OperationPlanItem {
    OperationPlanItem {
        group_id: "g1".to_string(),
        relative_stem: "day/a".to_string(),
        rating: Some(5),
        frame_pair: 5,
        jpeg_metadata: None,
        raw_xmp: None,
        matched_rule_ids: vec!["r1".to_string()],
        matched_rule_names: vec!["移动".to_string()],
        terminal_action: Some(RuleAction::Move),
        status: OperationPlanStatus::Ready,
        members: vec![PlannedMember {
            kind: RuleMemberKind::Jpeg,
            source_relative_path: "day/a.JPG".to_string(),
            target_path: Some("/out/day/a.JPG".to_string()),
            size_bytes: 3,
            modified_ms: Some(9),
        }],
        missing_kinds: vec![],
        sync_actions: vec![],
        issues: vec![],
    }
}

#[test]
fn a_failed_group_records_every_member_with_the_error() {
    let g = failed_group(&item(), OrganizerAction::Move, "磁盘已满".to_string());
    assert_eq!(g.status, OrganizerGroupStatus::Failed);
    assert_eq!(g.members.len(), 1);
    assert_eq!(g.members[0].message, "磁盘已满");
    assert_eq!(g.members[0].target_path, "/out/day/a.JPG");
    assert!(g.members[0].target_snapshot.is_none());
}

#[test]
fn incomplete_rollback_leaves_a_partial_group() {
    let clean = group_after_rollback(&item(), OrganizerAction::Move, "移动重命名失败，已完整回滚".to_string(), "移动重命名失败且回滚不完整：", &vec![], vec![]);
    assert_eq!(clean.status, OrganizerGroupStatus::Failed);
    assert_eq!(clean.message, "移动重命名失败，已完整回滚");
    let dirty = group_after_rollback(
        &item(),
        OrganizerAction::Move,
        "移动重命名失败，已完整回滚".to_string(),
        "移动重命名失败且回滚不完整：",
        &vec!["a 无法还原".to_string(), "b 无法还原".to_string()],
        vec![],
    );
    assert_eq!(dirty.status, OrganizerGroupStatus::Partial);
    assert_eq!(dirty.message, "移动重命名失败且回滚不完整：a 无法还原；b 无法还原");
}

#[test]
fn moved_groups_count_their_files() {
    let g = moved_group(&item(), OrganizerAction::Move, vec![]);
    assert_eq!(g.message, "已原子移动 0 个文件");
    assert_eq!(g.status, OrganizerGroupStatus::Success);
}

#[test]
fn sync_failures_downgrade_copied_and_moved_groups() {
    let g = moved_group(&item(), OrganizerAction::Move, vec![]);
    let g = with_sync_failure(g, "XMP 写入失败");
    assert_eq!(g.status, OrganizerGroupStatus::Partial);
    assert_eq!(g.message, "已原子移动 0 个文件；评分同步未完成：XMP 写入失败");
    let failed = failed_group(&item(), OrganizerAction::Copy, "x".to_string());
    let unchanged = with_sync_failure(failed, "y");
    assert_eq!(unchanged.status, OrganizerGroupStatus::Failed);
    assert_eq!(unchanged.message, "x");
}

#[test]
fn run_summaries_count_statuses() {
    let groups: Vec<OperationGroupRecord> = vec![
        moved_group(&item(), OrganizerAction::Move, vec![]),
        failed_group(&item(), OrganizerAction::Move, "x".to_string()),
        failed_group(&item(), OrganizerAction::Copy, "y".to_string()),
    ];
    let s = execution_summary("op".to_string(), "plan".to_string(), groups);
    assert_eq!((s.succeeded, s.failed, s.partial, s.skipped), (1, 2, 0, 0));
}

#[test]
fn history_save_failures_report_rollback_failures() {
    assert_eq!(persist_failure_message("无法保存", &vec![]), "无法保存");
    assert_eq!(
        persist_failure_message("无法保存", &vec!["a".to_string()]),
        "无法保存；文件操作回滚失败：a"
    );
}

fn probe(size: u64, canonical: &str) -> SourceProbe {
    SourceProbe {
        state: Ok(EntryState { is_symlink: false, is_file: true, size_bytes: size, modified_ms: Some(9) }),
        canonical: Ok(canonical.to_string()),
    }
}

#[test]
fn members_must_be_the_files_the_plan_saw() {
    let item = item();
    let ok = validate_group("/photos", &item, &vec![probe(3, "/photos/day/a.JPG")], &vec![Ok(())]).expect("valid");
    assert_eq!(ok.len(), 1);
    assert_eq!(ok[0].source, "/photos/day/a.JPG");
    assert_eq!(ok[0].target, "/out/day/a.JPG");
    assert_eq!(
        validate_group("/photos", &item, &vec![probe(4, "/photos/day/a.JPG")], &vec![Ok(())]).err(),
        Some("源文件在生成计划后发生变化：day/a.JPG".to_string())
    );
    assert_eq!(
        validate_group("/photos", &item, &vec![probe(3, "/elsewhere/a.JPG")], &vec![Ok(())]).err(),
        Some("源文件解析后超出了照片根目录".to_string())
    );
    let missing = SourceProbe { state: Err("gone".to_string()), canonical: Err("gone".to_string()) };
    assert_eq!(
        validate_group("/photos", &item, &vec![missing], &vec![Ok(())]).err(),
        Some("源文件不可访问 /photos/day/a.JPG：gone".to_string())
    );
    assert_eq!(
        validate_group("/photos", &item, &vec![probe(3, "/photos/day/a.JPG")], &vec![Err("目标路径已存在：/out/day/a.JPG".to_string())]).err(),
        Some("目标路径已存在：/out/day/a.JPG".to_string())
    );
    let mut empty = self::item();
    empty.members.clear();
    assert_eq!(validate_group("/photos", &empty, &vec![], &vec![]).err(), Some("照片组没有可执行文件".to_string()));
}

#[test]
fn targets_must_lie_strictly_inside_the_destination() {
    assert_eq!(check_target_inside("/out", "/out/day/a.JPG"), Ok(()));
    assert_eq!(check_target_inside("/out", "/out"), Err("目标路径超出了规则目标目录".to_string()));
    assert_eq!(check_target_inside("/out", "/other/a.JPG"), Err("目标路径超出了规则目标目录".to_string()));
    assert_eq!(check_target_inside("/out", "out/a.JPG"), Err("目标路径超出了规则目标目录".to_string()));
}

#[test]
fn cleanup_groups_need_a_cleanup_rule_without_destination() {
    let rule = |action: RuleAction, destination: Option<&str>| RatingRule {
        id: "r1".to_string(),
        name: "清理".to_string(),
        enabled: true,
        condition: RatingCondition::Unrated,
        member_scope: vec![RuleMemberKind::Jpeg],
        action,
        destination: destination.map(str::to_string),
        preserve_relative_path: false,
    };
    let item = item();
    assert_eq!(
        validate_cleanup_sources("/photos", &rule(RuleAction::Move, None), &item, &vec![probe(3, "/photos/day/a.JPG")]).err(),
        Some("待清理照片组的规则或目标目录无效".to_string())
    );
    let ok = validate_cleanup_sources("/photos", &rule(RuleAction::Cleanup, None), &item, &vec![probe(3, "/photos/day/a.JPG")])
        .expect("valid");
    assert_eq!(ok[0].target, "");
    let link = SourceProbe {
        state: Ok(EntryState { is_symlink: true, is_file: false, size_bytes: 3, modified_ms: Some(9) }),
        canonical: Ok("/photos/day/a.JPG".to_string()),
    };
    assert_eq!(
        validate_cleanup_sources("/photos", &rule(RuleAction::Cleanup, None), &item, &vec![link]).err(),
        Some("待清理路径不是可信普通文件：/photos/day/a.JPG".to_string())
    );
}

#[test]
fn recovery_selections_and_statuses() {
    assert_eq!(validate_recovery_selection(&vec![]), Err("请至少选择一个可恢复照片组".to_string()));
    assert_eq!(
        validate_recovery_selection(&vec!["g1".to_string(), " ".to_string()]),
        Err("恢复照片组不能为空或重复".to_string())
    );
    assert_eq!(
        validate_recovery_selection(&vec!["g1".to_string(), "g1".to_string()]),
        Err("恢复照片组不能为空或重复".to_string())
    );
    assert_eq!(validate_recovery_selection(&vec!["g1".to_string(), "g2".to_string()]), Ok(()));
    let result = |success: bool| RecoveryMemberResult {
        source_path: "/a".to_string(),
        target_path: "/b".to_string(),
        success,
        message: String::new(),
    };
    assert_eq!(recovery_status(&vec![]), OrganizerGroupStatus::Failed);
    assert_eq!(recovery_status(&vec![result(true), result(true)]), OrganizerGroupStatus::Success);
    assert_eq!(recovery_status(&vec![result(true), result(false)]), OrganizerGroupStatus::Partial);
    assert_eq!(recovery_status(&vec![result(false)]), OrganizerGroupStatus::Failed);
}

#[test]
fn recorded_paths_must_stay_inside_their_directories() {
    assert_eq!(trusted_history_source("/photos", "/photos/day/a.JPG"), Ok("/photos/day/a.JPG".to_string()));
    assert_eq!(
        trusted_history_source("/photos", "/photos"),
        Err("历史记录中的原始路径超出了照片目录".to_string())
    );
    assert_eq!(
        trusted_history_source("/photos", "/elsewhere/a.JPG"),
        Err("历史记录中的原始路径超出了照片目录".to_string())
    );
    let rules = vec![RatingRule {
        id: "r1".to_string(),
        name: "复制".to_string(),
        enabled: true,
        condition: RatingCondition::AtLeast { rating: 4 },
        member_scope: vec![RuleMemberKind::Jpeg],
        action: RuleAction::Copy,
        destination: Some("/out".to_string()),
        preserve_relative_path: true,
    }];
    assert_eq!(trusted_history_target(&rules, "/out/a.JPG"), Ok("/out/a.JPG".to_string()));
    assert_eq!(
        trusted_history_target(&rules, "out/a.JPG"),
        Err("历史记录中的目标路径不是绝对路径".to_string())
    );
    assert_eq!(
        trusted_history_target(&rules, "/other/a.JPG"),
        Err("历史记录中的目标路径超出了规则目录".to_string())
    );
}

#[test]
fn only_successful_groups_of_the_matching_action_are_recovered_once() {
    let group = |action: OrganizerAction, status: OrganizerGroupStatus| OperationGroupRecord {
        group_id: "g1".to_string(),
        relative_stem: "day/a".to_string(),
        action,
        status,
        message: String::new(),
        members: vec![],
    };
    assert_eq!(check_recovery_group(&group(OrganizerAction::Move, OrganizerGroupStatus::Success), RecoveryKind::RestoreMove, false), Ok(()));
    assert_eq!(
        check_recovery_group(&group(OrganizerAction::Copy, OrganizerGroupStatus::Success), RecoveryKind::RestoreMove, false),
        Err("照片组“day/a”的原操作类型不匹配".to_string())
    );
    assert_eq!(
        check_recovery_group(&group(OrganizerAction::Trash, OrganizerGroupStatus::Success), RecoveryKind::RestoreQuarantine, false),
        Err("照片组“day/a”的原操作类型不匹配".to_string())
    );
    assert_eq!(
        check_recovery_group(&group(OrganizerAction::Copy, OrganizerGroupStatus::Failed), RecoveryKind::UndoCopy, false),
        Err("照片组“day/a”没有可恢复文件".to_string())
    );
    assert_eq!(
        check_recovery_group(&group(OrganizerAction::Copy, OrganizerGroupStatus::Partial), RecoveryKind::UndoCopy, true),
        Err("照片组“day/a”已经恢复或撤销".to_string())
    );
    let result = |success: bool| RecoveryMemberResult {
        source_path: "/a".to_string(),
        target_path: "/b".to_string(),
        success,
        message: String::new(),
    };
    assert_eq!(recovery_message(&vec![result(true), result(false), result(true)]), "2 / 3 个文件处理完成");
}
