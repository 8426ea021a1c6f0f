use framepair::photo_groups::{PhotoAsset, PhotoIndex, PhotoMemberKind, PhotoMemberSnapshot, RatingState, extension_label};
use framepair::rating_sync::{
    RatingConflictPolicy, RatingResolution, RatingSyncPlanRequest, RatingSyncStatus, RatingSyncTarget,
    RatingSyncTargets, SyncProbe, TargetSnapshot, build_plan, raw_sync_target, resolve_rating,
};

fn state(frame_pair: u8, jpeg: Option<i8>, raw: Option<i8>) -> RatingState {
    RatingState { frame_pair, jpeg_metadata: jpeg, raw_xmp: raw, resolved: 0, conflict: false }
}

pub fn asset(id: &str, frame_pair: u8, jpeg: Option<i8>, raw: Option<i8>, xmp: bool) -> PhotoAsset {
    let stem = format!("day/{id}");
    let mut members = vec![
        PhotoMemberSnapshot { kind: PhotoMemberKind::Jpeg, relative_path: format!("{stem}.JPG"), size_bytes: 10, modified_ms: Some(1) },
        PhotoMemberSnapshot { kind: PhotoMemberKind::Raw, relative_path: format!("{stem}.NEF"), size_bytes: 20, modified_ms: Some(2) },
    ];
    if xmp {
        members.push(PhotoMemberSnapshot { kind: PhotoMemberKind::Xmp, relative_path: format!("{stem}.xmp"), size_bytes: 1, modified_ms: Some(3) });
    }
    PhotoAsset {
        id: id.to_string(),
        name: id.to_string(),
        relative_stem: stem.clone(),
        preview_path: Some(format!("{stem}.JPG")),
        jpeg_paths: vec![format!("{stem}.JPG")],
        raw_paths: vec![format!("{stem}.NEF")],
        xmp_paths: if xmp { vec![format!("{stem}.xmp")] } else { vec![] },
        members,
        extensions: vec!["JPG".to_string(), "NEF".to_string()],
        size_bytes: 30,
        modified_ms: Some(2),
        rating: frame_pair,
        rating_state: state(frame_pair, jpeg, raw),
        rating_issues: vec![],
    }
}

fn no_issues() -> Vec<String> {
    Vec::new()
}

#[test]
fn external_policy_prefers_outside_ratings_and_conflicts_on_disagreement() {
    let p = RatingConflictPolicy::External;
    assert_eq!(resolve_rating(&state(2, Some(4), None), &no_issues(), p), RatingResolution::Ready(4));
    assert_eq!(resolve_rating(&state(2, Some(4), Some(4)), &no_issues(), p), RatingResolution::Ready(4));
    assert_eq!(resolve_rating(&state(2, Some(4), Some(3)), &no_issues(), p), RatingResolution::Conflict);
    assert_eq!(resolve_rating(&state(2, Some(0), None), &no_issues(), p), RatingResolution::Ready(0));
    assert_eq!(resolve_rating(&state(2, None, None), &no_issues(), p), RatingResolution::Ready(2));
}

#[test]
fn every_policy_refuses_reject_marks_and_recorded_issues() {
    for p in [RatingConflictPolicy::Skip, RatingConflictPolicy::FramePair, RatingConflictPolicy::External, RatingConflictPolicy::Highest] {
        assert_eq!(resolve_rating(&state(3, Some(-1), None), &no_issues(), p), RatingResolution::Conflict);
        assert_eq!(resolve_rating(&state(3, None, None), &vec!["问题".to_string()], p), RatingResolution::Conflict);
    }
}

#[test]
fn highest_and_skip_policies() {
    assert_eq!(resolve_rating(&state(2, Some(5), Some(3)), &no_issues(), RatingConflictPolicy::Highest), RatingResolution::Ready(5));
    assert_eq!(resolve_rating(&state(0, None, None), &no_issues(), RatingConflictPolicy::Highest), RatingResolution::Ready(0));
    assert_eq!(resolve_rating(&state(3, Some(3), None), &no_issues(), RatingConflictPolicy::Skip), RatingResolution::Ready(3));
    assert_eq!(resolve_rating(&state(2, Some(3), None), &no_issues(), RatingConflictPolicy::Skip), RatingResolution::Conflict);
    assert_eq!(resolve_rating(&state(0, Some(0), None), &no_issues(), RatingConflictPolicy::Skip), RatingResolution::Ready(0));
    assert_eq!(resolve_rating(&state(2, Some(5), None), &no_issues(), RatingConflictPolicy::FramePair), RatingResolution::Ready(2));
}

#[test]
fn a_new_xmp_goes_beside_the_raw() {
    let a = asset("A", 3, None, None, false);
    assert_eq!(raw_sync_target(&a), Some(("day/A.xmp".to_string(), false)));
    let b = asset("B", 3, None, None, true);
    assert_eq!(raw_sync_target(&b), Some(("day/B.xmp".to_string(), true)));
}

fn request(ids: Vec<&str>) -> RatingSyncPlanRequest {
    RatingSyncPlanRequest {
        root: "/photos".to_string(),
        minimum_rating: 1,
        maximum_rating: 5,
        asset_ids: ids.into_iter().map(str::to_string).collect(),
        targets: RatingSyncTargets { raw_xmp: true, jpeg_metadata: false },
        conflict_policy: RatingConflictPolicy::FramePair,
        jpeg_write_confirmed: false,
    }
}

fn index(assets: Vec<PhotoAsset>) -> PhotoIndex {
    let total = assets.len();
    PhotoIndex { root: "/photos".to_string(), indexed_at_ms: 1, total_assets: total, paired_assets: total, previewable_assets: total, raw_only_assets: 0, assets }
}

fn absent() -> SyncProbe {
    SyncProbe { raw: Ok(TargetSnapshot::Absent), jpeg: Err(String::new()) }
}

#[test]
fn sync_plan_writes_only_groups_whose_rating_changes() {
    let idx = index(vec![asset("b", 3, None, Some(3), true), asset("a", 4, None, None, false), asset("c", 0, None, None, false)]);
    let probes = vec![
        SyncProbe { raw: Ok(TargetSnapshot::Existing { size_bytes: 1, modified_ms: Some(3) }), jpeg: Err(String::new()) },
        absent(),
        absent(),
    ];
    let plan = build_plan(&idx, &request(vec![]), "p1".to_string(), "/photos", "/photos", &probes).expect("plan");
    let summary = plan.summary();
    assert_eq!(summary.total_items, 2);
    assert_eq!(summary.ready, 1);
    assert_eq!(summary.unchanged, 1);
    assert_eq!(summary.items[0].asset_id, "a");
    assert_eq!(summary.items[0].status, RatingSyncStatus::Ready);
    assert_eq!(summary.items[1].status, RatingSyncStatus::Unchanged);
    assert_eq!(plan.writes.len(), 1);
    assert_eq!(plan.writes[0].asset_id, "a");
    assert_eq!(plan.writes[0].target, RatingSyncTarget::RawXmp);
    assert_eq!(plan.writes[0].relative_path, "day/a.xmp");
    assert_eq!(plan.writes[0].snapshot, TargetSnapshot::Absent);
}

#[test]
fn sync_requests_are_checked_before_planning() {
    let idx = index(vec![asset("a", 4, None, None, false)]);
    let probes = vec![absent()];
    let mut none = request(vec![]);
    none.targets = RatingSyncTargets { raw_xmp: false, jpeg_metadata: false };
    assert_eq!(build_plan(&idx, &none, "p".to_string(), "/photos", "/photos", &probes).err().unwrap(), "请至少选择一个评分同步目标");
    assert_eq!(
        build_plan(&idx, &request(vec![]), "p".to_string(), "/photos", "/other", &probes).err().unwrap(),
        "评分同步目录与照片索引不一致"
    );
    assert_eq!(
        build_plan(&idx, &request(vec!["a", "a"]), "p".to_string(), "/photos", "/photos", &probes).err().unwrap(),
        "评分同步范围包含重复照片组"
    );
    assert_eq!(
        build_plan(&idx, &request(vec!["zz"]), "p".to_string(), "/photos", "/photos", &probes).err().unwrap(),
        "评分同步范围包含当前索引中不存在的照片组"
    );
}

#[test]
fn a_probe_error_becomes_an_issue_and_a_conflict() {
    let idx = index(vec![asset("a", 4, None, None, false)]);
    let probes = vec![SyncProbe { raw: Err("预期新建的同步目标 day/a.xmp 已存在".to_string()), jpeg: Err(String::new()) }];
    let plan = build_plan(&idx, &request(vec!["a"]), "p".to_string(), "/photos", "/photos", &probes).expect("plan");
    let item = &plan.summary().items[0];
    assert_eq!(item.status, RatingSyncStatus::Conflict);
    assert_eq!(item.issues, vec!["预期新建的同步目标 day/a.xmp 已存在".to_string()]);
    assert!(plan.writes.is_empty());
}

#[test]
fn extension_labels_are_upper_case() {
    assert_eq!(extension_label("day/a.nef"), "NEF");
    assert_eq!(extension_label("day/noext"), "");
}
