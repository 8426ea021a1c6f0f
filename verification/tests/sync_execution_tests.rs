use framepair::rating_sync::{PlannedRatingWrite, RatingSyncPlan, RatingSyncPlanSummary, RatingSyncTarget, TargetSnapshot};
use framepair::sync_execution::{
    check_sync_plan_id, check_sync_selection, check_sync_target, revalidate_snapshot, selected_writes, TargetState,
};

fn plan() -> RatingSyncPlan {
    let write = |asset: &str, path: &str| PlannedRatingWrite {
        asset_id: asset.to_string(),
        target: RatingSyncTarget::RawXmp,
        relative_path: path.to_string(),
        target_rating: 4,
        snapshot: TargetSnapshot::Absent,
    };
    RatingSyncPlan {
        summary: RatingSyncPlanSummary {
            plan_id: "sync-1".to_string(),
            root: "/photos".to_string(),
            total_items: 2,
            ready: 2,
            unchanged: 0,
            conflicts: 0,
            items: Vec::new(),
        },
        writes: vec![write("a", "a.xmp"), write("b", "b.xmp"), write("a", "a2.xmp")],
    }
}

#[test]
fn execution_requests_must_name_the_plan_and_planned_groups() {
    let plan = plan();
    assert_eq!(check_sync_plan_id(&plan, "sync-1"), Ok(()));
    assert_eq!(check_sync_plan_id(&plan, "old"), Err("评分同步计划已失效，请重新生成".to_string()));
    assert_eq!(check_sync_selection(&plan, &vec![]), Err("请至少选择一个可执行照片组".to_string()));
    assert_eq!(
        check_sync_selection(&plan, &vec!["a".to_string(), "a".to_string()]),
        Err("评分同步执行范围包含重复照片组".to_string())
    );
    assert_eq!(
        check_sync_selection(&plan, &vec!["a".to_string(), "z".to_string()]),
        Err("执行范围包含未被当前计划授权的照片组".to_string())
    );
    assert_eq!(check_sync_selection(&plan, &vec!["b".to_string()]), Ok(()));
    assert_eq!(selected_writes(&plan, &vec!["a".to_string()]), vec![0, 2]);
}

#[test]
fn write_targets_must_be_safe_and_of_their_kind() {
    assert_eq!(check_sync_target("day/a.XMP", RatingSyncTarget::RawXmp), Ok(()));
    assert_eq!(check_sync_target("day/a.jpeg", RatingSyncTarget::JpegMetadata), Ok(()));
    assert_eq!(
        check_sync_target("../a.xmp", RatingSyncTarget::RawXmp),
        Err("评分同步目标必须是安全相对路径".to_string())
    );
    assert_eq!(
        check_sync_target("a.jpg", RatingSyncTarget::RawXmp),
        Err("评分同步目标扩展名与计划类型不一致".to_string())
    );
}

#[test]
fn targets_must_still_be_as_planned() {
    let absent = TargetSnapshot::Absent;
    assert_eq!(revalidate_snapshot(&absent, TargetState::Missing), Ok(()));
    assert_eq!(
        revalidate_snapshot(&absent, TargetState::Unreadable),
        Err("同步目标在计划生成后发生变化".to_string())
    );
    let existing = TargetSnapshot::Existing { size_bytes: 5, modified_ms: Some(7) };
    let same = TargetState::Found { regular: true, size_bytes: 5, modified_ms: Some(7) };
    assert_eq!(revalidate_snapshot(&existing, same), Ok(()));
    assert_eq!(
        revalidate_snapshot(&existing, TargetState::Found { regular: true, size_bytes: 6, modified_ms: Some(7) }),
        Err("同步目标在计划生成后发生变化".to_string())
    );
    assert_eq!(
        revalidate_snapshot(&existing, TargetState::Found { regular: false, size_bytes: 5, modified_ms: Some(7) }),
        Err("同步目标在计划生成后发生变化或不再是普通文件".to_string())
    );
    assert_eq!(
        revalidate_snapshot(&existing, TargetState::Missing),
        Err("同步目标在计划生成后发生变化或已不存在".to_string())
    );
}
