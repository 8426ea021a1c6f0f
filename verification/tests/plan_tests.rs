use framepair::operation_plan::{
    OperationPlanRequest, OperationPlanStatus, OperationSyncPreference, SyncTiming, TargetProbe,
    build_operation_plan, destination_target,
};
use framepair::photo_groups::{PhotoAsset, PhotoIndex, PhotoMemberKind, PhotoMemberSnapshot, RatingState};
use framepair::rating_rules::{RatingCondition, RatingRule, RuleAction, RuleMemberKind};
use framepair::rating_sync::{RatingConflictPolicy, RatingSyncTarget, RatingSyncTargets};

fn asset(id: &str, frame_pair: u8) -> PhotoAsset {
    let stem = format!("day/{id}");
    PhotoAsset {
        id: id.to_string(),
        name: id.to_string(),
        relative_stem: stem.clone(),
        preview_path: Some(format!("{stem}.JPG")),
        jpeg_paths: vec![format!("{stem}.JPG")],
        raw_paths: vec![format!("{stem}.NEF")],
        xmp_paths: vec![],
        members: vec![
            PhotoMemberSnapshot { kind: PhotoMemberKind::Jpeg, relative_path: format!("{stem}.JPG"), size_bytes: 10, modified_ms: Some(1) },
            PhotoMemberSnapshot { kind: PhotoMemberKind::Raw, relative_path: format!("{stem}.NEF"), size_bytes: 20, modified_ms: Some(2) },
        ],
        extensions: vec!["JPG".to_string(), "NEF".to_string()],
        size_bytes: 30,
        modified_ms: Some(2),
        rating: frame_pair,
        rating_state: RatingState { frame_pair, jpeg_metadata: None, raw_xmp: None, resolved: frame_pair, conflict: false },
        rating_issues: vec![],
    }
}

fn index(assets: Vec<PhotoAsset>) -> PhotoIndex {
    let total = assets.len();
    PhotoIndex { root: "/photos".to_string(), indexed_at_ms: 1, total_assets: total, paired_assets: total, previewable_assets: total, raw_only_assets: 0, assets }
}

fn rule(id: &str, condition: RatingCondition, action: RuleAction, destination: Option<&str>, preserve: bool) -> RatingRule {
    RatingRule {
        id: id.to_string(),
        name: format!("规则{id}"),
        enabled: true,
        condition,
        member_scope: vec![RuleMemberKind::Jpeg, RuleMemberKind::Raw],
        action,
        destination: destination.map(str::to_string),
        preserve_relative_path: preserve,
    }
}

fn request(rules: Vec<RatingRule>) -> OperationPlanRequest {
    OperationPlanRequest {
        root: "/photos".to_string(),
        rules,
        conflict_policy: RatingConflictPolicy::FramePair,
        sync: OperationSyncPreference::default(),
    }
}

fn free(paths: &[&str]) -> Vec<TargetProbe> {
    paths.iter().map(|p| TargetProbe { path: p.to_string(), issue: None }).collect()
}

#[test]
fn copy_rule_places_members_under_the_destination() {
    let idx = index(vec![asset("b", 4), asset("a", 2)]);
    let req = request(vec![rule("r1", RatingCondition::AtLeast { rating: 4 }, RuleAction::Copy, Some("/out"), true)]);
    let destinations = vec![Some("/out".to_string())];
    let probes = free(&["/out/day/b.JPG", "/out/day/b.NEF"]);
    let plan = build_operation_plan(&idx, &req, "plan".to_string(), "/photos", "/photos", &destinations, &probes).expect("plan");
    let summary = plan.summary();
    assert_eq!(summary.total_items, 2);
    assert_eq!(summary.items[0].group_id, "a");
    assert_eq!(summary.items[0].status, OperationPlanStatus::Skipped);
    let b = &summary.items[1];
    assert_eq!(b.status, OperationPlanStatus::Ready);
    assert_eq!(b.terminal_action, Some(RuleAction::Copy));
    assert_eq!(b.members[0].target_path.as_deref(), Some("/out/day/b.JPG"));
    assert_eq!(summary.copy_groups, 1);
    assert_eq!(summary.copy_bytes, 30);
    assert_eq!(summary.jpeg_files, 1);
    assert_eq!(summary.raw_files, 1);
    assert_eq!(summary.ready, 1);
    assert_eq!(summary.skipped, 1);
}

#[test]
fn flat_destinations_that_collide_are_marked_as_conflicts() {
    let mut other = asset("c", 5);
    other.relative_stem = "other/b".to_string();
    other.members[0].relative_path = "other/b.JPG".to_string();
    other.members[1].relative_path = "other/b.NEF".to_string();
    let idx = index(vec![asset("b", 5), other]);
    let req = request(vec![rule("r1", RatingCondition::Equal { rating: 5 }, RuleAction::Move, Some("/out"), false)]);
    let probes = free(&["/out/b.JPG", "/out/b.NEF"]);
    let plan = build_operation_plan(&idx, &req, "plan".to_string(), "/photos", "/photos", &vec![Some("/out".to_string())], &probes).expect("plan");
    for item in &plan.summary().items {
        assert_eq!(item.status, OperationPlanStatus::Conflict);
        assert_eq!(item.issues, vec!["多个成员映射到同一目标路径，禁止覆盖或自动重命名".to_string()]);
    }
    assert_eq!(plan.summary().conflicts, 2);
}

#[test]
fn two_matching_rules_are_a_conflict_naming_both() {
    let idx = index(vec![asset("a", 4)]);
    let req = request(vec![
        rule("r1", RatingCondition::AtLeast { rating: 3 }, RuleAction::Keep, None, true),
        rule("r2", RatingCondition::Equal { rating: 4 }, RuleAction::Cleanup, None, true),
    ]);
    let plan = build_operation_plan(&idx, &req, "plan".to_string(), "/photos", "/photos", &vec![None, None], &vec![]).expect("plan");
    let item = &plan.summary().items[0];
    assert_eq!(item.status, OperationPlanStatus::Conflict);
    assert_eq!(item.issues, vec!["照片组命中多条最终操作规则：规则r1、规则r2".to_string()]);
}

#[test]
fn destinations_inside_the_photo_directory_are_refused() {
    let idx = index(vec![asset("a", 4)]);
    let req = request(vec![rule("r1", RatingCondition::AtLeast { rating: 3 }, RuleAction::Copy, Some("/photos/out"), true)]);
    let error = build_operation_plan(&idx, &req, "plan".to_string(), "/photos", "/photos", &vec![Some("/photos/out".to_string())], &vec![]).err().unwrap();
    assert_eq!(error, "规则“规则r1”的目标目录与照片目录不能相同或互相嵌套");
}

#[test]
fn plans_need_an_id_and_a_rule() {
    let idx = index(vec![]);
    assert_eq!(build_operation_plan(&idx, &request(vec![]), " ".to_string(), "/p", "/p", &vec![], &vec![]).err().unwrap(), "评分整理计划 ID 不能为空");
    assert_eq!(build_operation_plan(&idx, &request(vec![]), "x".to_string(), "/p", "/p", &vec![], &vec![]).err().unwrap(), "请至少创建一条评分规则");
}

#[test]
fn unprobed_targets_cannot_be_checked() {
    let idx = index(vec![asset("a", 4)]);
    let req = request(vec![rule("r1", RatingCondition::AtLeast { rating: 3 }, RuleAction::Copy, Some("/out"), true)]);
    let plan = build_operation_plan(&idx, &req, "plan".to_string(), "/photos", "/photos", &vec![Some("/out".to_string())], &vec![]).expect("plan");
    let item = &plan.summary().items[0];
    assert_eq!(item.status, OperationPlanStatus::Conflict);
    assert_eq!(item.issues[0], "无法检查目标路径 /out/day/a.JPG");
}

#[test]
fn keep_rules_plan_source_rating_writes() {
    let idx = index(vec![asset("a", 4)]);
    let mut req = request(vec![rule("r1", RatingCondition::AtLeast { rating: 3 }, RuleAction::Keep, None, true)]);
    req.sync = OperationSyncPreference {
        enabled: true,
        targets: RatingSyncTargets { raw_xmp: true, jpeg_metadata: false },
        jpeg_write_confirmed: false,
        sync_cleanup_before: false,
    };
    let plan = build_operation_plan(&idx, &req, "plan".to_string(), "/photos", "/photos", &vec![None], &vec![]).expect("plan");
    let item = &plan.summary().items[0];
    assert_eq!(item.status, OperationPlanStatus::Keep);
    assert_eq!(item.sync_actions.len(), 1);
    assert_eq!(item.sync_actions[0].target, RatingSyncTarget::RawXmp);
    assert_eq!(item.sync_actions[0].target_path, "/photos/day/a.xmp");
    assert_eq!(item.sync_actions[0].timing, SyncTiming::Source);
    assert_eq!(plan.summary().sync_groups, 1);
}

#[test]
fn member_targets_must_be_safe_relative_paths() {
    assert_eq!(destination_target("/out", "../a.JPG", true).unwrap_err(), "照片成员路径不是安全相对路径");
    assert_eq!(destination_target("/out", "day/a.JPG", false).unwrap(), "/out/a.JPG");
    assert_eq!(destination_target("/out", "day/a.JPG", true).unwrap(), "/out/day/a.JPG");
}
