use framepair::pair_scan::{
    FileKind, MatchStatus, ScanInputs, ScanMode, ScanRequest, check_scan_mode, scan_pairs_impl,
};
use framepair::safety::FileSnapshot;
use framepair::scan_plan::{scan_plan, ScanPlanSlot};
use framepair::reference::{
    FileFacts, ListedFile, ReferenceSource, directory_index, manifest_index, rate_sidecar, xmp_index,
};

fn listed(path: &str, size: u64) -> ListedFile {
    ListedFile {
        relative_path: path.to_string(),
        facts: Ok(FileFacts { size_bytes: size, modified_ms: Some(7) }),
    }
}

fn request(reference_root: &str, raw_root: &str, mode: ScanMode) -> ScanRequest {
    ScanRequest {
        reference_source: ReferenceSource::Directory { root: reference_root.to_string() },
        raw_root: raw_root.to_string(),
        case_sensitive: false,
        mode,
    }
}

fn inputs(reference_root: &str, jpgs: Vec<ListedFile>, raw_root: &str, raws: Vec<ListedFile>) -> ScanInputs {
    ScanInputs {
        raw_root: raw_root.to_string(),
        raw_files: raws,
        reference: directory_index(reference_root.to_string(), jpgs, false),
        scanned_at_ms: 42,
    }
}

#[test]
fn scans_nested_pairs_and_exposes_missing_sidecars() {
    let summary = scan_pairs_impl(
        &request("/t/JPG", "/t/RAW", ScanMode::CleanupRaw),
        inputs(
            "/t/JPG",
            vec![listed("20260712/DSC_0001.JPG", 3)],
            "/t/RAW",
            vec![
                listed("20260712/DSC_0001.NEF", 8),
                listed("20260712/DSC_0002.NEF", 11),
                listed("20260712/DSC_0002.xmp", 7),
            ],
        ),
    )
    .expect("scan");
    assert_eq!(summary.reference_files, 1);
    assert_eq!(summary.raw_files, 2);
    assert_eq!(summary.matched, 1);
    assert_eq!(summary.unmatched, 1);
    assert_eq!(summary.sidecars, 1);
    assert_eq!(summary.items.len(), 3);
    assert!(summary.items.iter().any(|item| {
        item.relative_path == "20260712/DSC_0002.NEF"
            && item.match_status == MatchStatus::Unmatched
            && item.kind == FileKind::Raw
    }));
    assert!(summary.items.iter().any(|item| {
        item.relative_path == "20260712/DSC_0002.xmp"
            && item.match_status == MatchStatus::Unmatched
            && item.kind == FileKind::Sidecar
    }));
    assert_eq!(summary.reclaimable_bytes, 18);
    assert_eq!(summary.scanned_at_ms, 42);
    assert_eq!(summary.plan_id, "");
}

#[test]
fn scan_items_list_unmatched_first_then_by_lowercase_path() {
    let summary = scan_pairs_impl(
        &request("/t/JPG", "/t/RAW", ScanMode::CleanupRaw),
        inputs(
            "/t/JPG",
            vec![listed("b.jpg", 1)],
            "/t/RAW",
            vec![listed("B.NEF", 1), listed("c.NEF", 1), listed("A.NEF", 1)],
        ),
    )
    .expect("scan");
    let order: Vec<&str> = summary.items.iter().map(|item| item.relative_path.as_str()).collect();
    assert_eq!(order, vec!["A.NEF", "c.NEF", "B.NEF"]);
    assert_eq!(summary.items[2].matched_path.as_deref(), Some("b.jpg"));
    assert_eq!(summary.items[0].id, "raw:A.NEF");
    assert_eq!(summary.items[0].extension, ".NEF");
    assert_eq!(summary.items[0].file_name, "A.NEF");
}

#[test]
fn audits_references_without_matching_raws() {
    let summary = scan_pairs_impl(
        &request("/t/jpg", "/t/raw", ScanMode::AuditReference),
        inputs(
            "/t/jpg",
            vec![listed("day/kept.JPG", 3), listed("day/orphan.JPG", 3)],
            "/t/raw",
            vec![listed("day/kept.CR3", 3)],
        ),
    )
    .expect("reverse audit");
    assert_eq!(summary.mode, ScanMode::AuditReference);
    assert_eq!(summary.matched, 1);
    assert_eq!(summary.unmatched, 1);
    assert_eq!(summary.reclaimable_bytes, 0);
    assert!(summary.items.iter().any(|item| {
        item.relative_path == "day/orphan.JPG"
            && item.kind == FileKind::Reference
            && item.match_status == MatchStatus::Unmatched
    }));
}

#[test]
fn audit_needs_a_directory_reference_source() {
    let scan = ScanRequest {
        reference_source: ReferenceSource::Manifest { path: "/t/keep.txt".to_string() },
        raw_root: "/t/raw".to_string(),
        case_sensitive: false,
        mode: ScanMode::AuditReference,
    };
    assert_eq!(check_scan_mode(&scan).unwrap_err(), "反向审计只支持 JPG 目录参考源");
}

#[test]
fn cleanup_scan_accepts_a_manifest_reference_source() {
    let scan = ScanRequest {
        reference_source: ReferenceSource::Manifest { path: "/t/keepers.txt".to_string() },
        raw_root: "/t/raw".to_string(),
        case_sensitive: false,
        mode: ScanMode::CleanupRaw,
    };
    let summary = scan_pairs_impl(
        &scan,
        ScanInputs {
            raw_root: "/t/raw".to_string(),
            raw_files: vec![listed("day/a.NEF", 4), listed("day/b.NEF", 7)],
            reference: manifest_index("day/a.JPG\n", false).expect("manifest"),
            scanned_at_ms: 1,
        },
    )
    .expect("manifest scan");
    assert_eq!(summary.matched, 1);
    assert_eq!(summary.unmatched, 1);
}

#[test]
fn matches_double_extension_xmp_sidecars_to_missing_raws() {
    let summary = scan_pairs_impl(
        &request("/t/JPG", "/t/RAW", ScanMode::CleanupRaw),
        inputs("/t/JPG", vec![], "/t/RAW", vec![listed("photo.NEF", 3), listed("photo.NEF.xmp", 3)]),
    )
    .expect("scan");
    assert_eq!(summary.sidecars, 1);
    assert!(summary.items.iter().any(|item| item.relative_path == "photo.NEF.xmp"));
}

#[test]
fn rejects_overlapping_roots() {
    let error = scan_pairs_impl(
        &request("/t/photos", "/t/photos/raw", ScanMode::CleanupRaw),
        inputs("/t/photos", vec![], "/t/photos/raw", vec![]),
    )
    .expect_err("overlap should fail");
    assert!(error.contains("不能相同或互相嵌套"));
}

#[test]
fn exposes_each_sidecar_once_for_repeated_missing_match_keys() {
    let summary = scan_pairs_impl(
        &request("/t/JPG", "/t/RAW", ScanMode::CleanupRaw),
        inputs(
            "/t/JPG",
            vec![],
            "/t/RAW",
            vec![listed("DSC_0001.NEF", 3), listed("DSC_0001.CR3", 3), listed("DSC_0001.xmp", 3)],
        ),
    )
    .expect("scan");
    assert_eq!(summary.unmatched, 2);
    assert_eq!(summary.sidecars, 1);
    assert_eq!(summary.items.iter().filter(|item| item.kind == FileKind::Sidecar).count(), 1);
}

#[test]
fn an_unreadable_raw_fails_the_scan_with_its_error() {
    let mut raws = vec![listed("a.NEF", 3)];
    raws.push(ListedFile { relative_path: "b.NEF".to_string(), facts: Err("读取文件信息失败：gone".to_string()) });
    let error = scan_pairs_impl(
        &request("/t/JPG", "/t/RAW", ScanMode::CleanupRaw),
        inputs("/t/JPG", vec![], "/t/RAW", raws),
    )
    .expect_err("unreadable raw");
    assert_eq!(error, "读取文件信息失败：gone");
}

#[test]
fn duplicate_reference_keys_produce_a_warning_in_cleanup() {
    let summary = scan_pairs_impl(
        &request("/t/JPG", "/t/RAW", ScanMode::CleanupRaw),
        inputs("/t/JPG", vec![listed("a.JPG", 1), listed("a.jpeg", 1)], "/t/RAW", vec![listed("a.NEF", 1)]),
    )
    .expect("scan");
    assert_eq!(summary.duplicate_reference_keys, 1);
    assert_eq!(summary.warnings, vec!["参考目录中有 1 组重复匹配键，请在执行前核对".to_string()]);
}

#[test]
fn scan_excludes_framepair_quarantine_contents() {
    let summary = scan_pairs_impl(
        &request("/t/jpg", "/t/raw", ScanMode::CleanupRaw),
        inputs(
            "/t/jpg",
            vec![],
            "/t/raw",
            vec![listed("active.NEF", 4), listed(".framepair-quarantine/operation-1/hidden.NEF", 5)],
        ),
    )
    .expect("scan");
    assert_eq!(summary.raw_files, 1);
    assert!(summary.items.iter().all(|item| !item.relative_path.contains(".framepair-quarantine")));
}

#[test]
fn cleanup_scan_accepts_an_xmp_rating_reference_source() {
    let rated = vec![
        rate_sidecar(listed("a.NEF.xmp", 40), br#"<rdf:Description xmp:Rating="5" />"#).expect("rated"),
    ];
    let scan = ScanRequest {
        reference_source: ReferenceSource::XmpRating { root: "/t/raw".to_string(), minimum_rating: 4 },
        raw_root: "/t/raw".to_string(),
        case_sensitive: false,
        mode: ScanMode::CleanupRaw,
    };
    let summary = scan_pairs_impl(
        &scan,
        ScanInputs {
            raw_root: "/t/raw".to_string(),
            raw_files: vec![listed("a.NEF", 4), listed("b.NEF", 7)],
            reference: xmp_index("/t/raw".to_string(), rated, 4, false),
            scanned_at_ms: 1,
        },
    )
    .expect("xmp rating scan");
    assert_eq!(summary.matched, 1);
    assert_eq!(summary.unmatched, 1);
}

#[test]
fn a_new_scan_replaces_the_plan_and_a_cleanup_takes_it_once() {
    let summary = scan_pairs_impl(
        &request("/t/JPG", "/t/RAW", ScanMode::CleanupRaw),
        inputs("/t/JPG", vec![listed("a.JPG", 3)], "/t/RAW", vec![listed("a.NEF", 8), listed("b.NEF", 11)]),
    )
    .expect("scan");
    let mut slot = ScanPlanSlot::new();
    assert_eq!(slot.take_cleanup("1", "/t/RAW").unwrap_err(), "清理计划不存在，请重新扫描");
    slot.replace(scan_plan(&summary.items, summary.mode, "1".to_string(), "/t/RAW".to_string()));
    slot.replace(scan_plan(&summary.items, summary.mode, "2".to_string(), "/t/RAW".to_string()));
    assert_eq!(slot.take_cleanup("1", "/t/RAW").unwrap_err(), "清理计划已失效或 RAW 源目录不匹配，请重新扫描");
    assert_eq!(slot.take_cleanup("2", "/t/other").unwrap_err(), "清理计划已失效或 RAW 源目录不匹配，请重新扫描");
    let plan = slot.take_cleanup("2", "/t/RAW").expect("the current plan");
    assert!(plan.authorize("2", "/t/RAW", "b.NEF", &FileSnapshot::new(11, Some(7))).is_ok());
    assert!(plan.authorize("2", "/t/RAW", "a.NEF", &FileSnapshot::new(8, Some(7))).is_err());
    assert_eq!(slot.take_cleanup("2", "/t/RAW").unwrap_err(), "清理计划不存在，请重新扫描");
    assert_eq!(slot.audit_paths("2", "/t/RAW").unwrap_err(), "审计计划不存在，请重新扫描");
}
