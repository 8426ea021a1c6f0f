use framepair::quarantine::{
    check_quarantine_id, operation_created_at, order_quarantine_operations, quarantine_operation,
    quarantine_relative_path,
};
use framepair::pair_cleanup::{
    CandidateProbe, CleanupCandidate, CleanupDestination, CleanupRequest, FileState, check_candidate_name,
    cleanup_result, cleanup_summary, cleanup_target, validate_delete_candidate,
};
use framepair::safety::{CleanupPlan, FileSnapshot};

fn candidate(path: &str) -> CleanupCandidate {
    CleanupCandidate { relative_path: path.to_string(), expected_size_bytes: 3, expected_modified_ms: Some(9) }
}

fn probe(path: &str, size: u64) -> CandidateProbe {
    CandidateProbe {
        canonical: Ok(path.to_string()),
        state: Ok(FileState { is_file: true, size_bytes: size, modified_ms: Some(9) }),
    }
}

#[test]
fn delete_validation_accepts_supported_raws_and_rejects_other_files() {
    assert!(check_candidate_name("photo.CR3").is_ok());
    assert!(check_candidate_name("photo.NEF.xmp").is_ok());
    assert_eq!(check_candidate_name("notes.txt").unwrap_err(), "不允许处理 .txt 文件");
    assert_eq!(check_candidate_name("../photo.CR3").unwrap_err(), "文件路径包含不安全片段");
}

#[test]
fn cleanup_plan_authorizes_only_the_scanned_file() {
    let plan = CleanupPlan::new(
        "1000-1-1".to_string(),
        "/raw".to_string(),
        vec![("day/photo.CR3".to_string(), FileSnapshot::new(3, Some(9)))],
    );
    let ok = cleanup_target(&plan, "1000-1-1", "/raw", &candidate("day/photo.CR3"), &probe("/raw/day/photo.CR3", 3));
    assert_eq!(ok, Ok("/raw/day/photo.CR3".to_string()));
    let stale = cleanup_target(&plan, "other", "/raw", &candidate("day/photo.CR3"), &probe("/raw/day/photo.CR3", 3));
    assert_eq!(stale.unwrap_err(), "清理计划已失效，请重新扫描");
    let grown = cleanup_target(&plan, "1000-1-1", "/raw", &candidate("day/photo.CR3"), &probe("/raw/day/photo.CR3", 4));
    assert_eq!(grown.unwrap_err(), "文件大小在扫描后发生变化，请重新扫描");
    let escaped = cleanup_target(&plan, "1000-1-1", "/raw", &candidate("day/photo.CR3"), &probe("/elsewhere/photo.CR3", 3));
    assert_eq!(escaped.unwrap_err(), "文件解析后超出了 RAW 源目录");
}

#[test]
fn delete_validation_refuses_an_unknown_or_changed_modification_time() {
    let unknown = CleanupCandidate { relative_path: "a.NEF".to_string(), expected_size_bytes: 3, expected_modified_ms: None };
    assert_eq!(
        validate_delete_candidate("/raw", &unknown, &probe("/raw/a.NEF", 3)).unwrap_err(),
        "无法确认文件在扫描后未被改动，请重新扫描"
    );
    let changed = CandidateProbe {
        canonical: Ok("/raw/a.NEF".to_string()),
        state: Ok(FileState { is_file: true, size_bytes: 3, modified_ms: Some(7) }),
    };
    assert_eq!(
        validate_delete_candidate("/raw", &candidate("a.NEF"), &changed).unwrap_err(),
        "文件修改时间在扫描后发生变化，请重新扫描"
    );
    assert_eq!(validate_delete_candidate("/raw", &candidate("a.NEF"), &probe("/raw/a.NEF", 3)), Ok("/raw/a.NEF".to_string()));
}

#[test]
fn cleanup_summary_names_the_quarantine_operation() {
    let request = CleanupRequest {
        plan_id: "1000-1-1".to_string(),
        raw_root: "/raw".to_string(),
        destination: CleanupDestination::Quarantine,
        items: vec![candidate("a.NEF"), candidate("b.NEF")],
    };
    let results = vec![
        cleanup_result(&request.items[0], CleanupDestination::Quarantine, Ok(())),
        cleanup_result(&request.items[1], CleanupDestination::Quarantine, Err("目标已存在".to_string())),
    ];
    assert_eq!(results[0].message, "已移入 FramePair 隔离区");
    let summary = cleanup_summary(&request, results, Some("/raw/.framepair-quarantine/1000-1-1".to_string()), None, None);
    assert_eq!(summary.succeeded, 1);
    assert_eq!(summary.failed, 1);
    assert_eq!(summary.operation_id.as_deref(), Some("1000-1-1"));
    assert_eq!(summary.quarantine_path.as_deref(), Some("/raw/.framepair-quarantine/1000-1-1"));
}

#[test]
fn trash_failures_say_where_the_file_was_going() {
    let result = cleanup_result(&candidate("a.NEF"), CleanupDestination::Trash, Err("denied".to_string()));
    assert!(!result.success);
    assert_eq!(result.message, "移入系统回收站/废纸篓失败：denied");
}

#[test]
fn quarantine_ids_paths_and_creation_times() {
    assert_eq!(check_quarantine_id("1700000000000-abc"), Ok(()));
    assert_eq!(check_quarantine_id(""), Err("隔离操作编号不合法".to_string()));
    assert_eq!(check_quarantine_id("../x"), Err("隔离操作编号不合法".to_string()));
    assert_eq!(quarantine_relative_path("day/a.NEF"), Ok("day/a.NEF".to_string()));
    assert_eq!(
        quarantine_relative_path(".framepair-quarantine/x.NEF"),
        Err("不能把隔离目录自身作为处理目标".to_string())
    );
    assert_eq!(quarantine_relative_path("../a.NEF"), Err("隔离文件路径包含不安全片段".to_string()));
    assert_eq!(quarantine_relative_path("/a.NEF"), Err("隔离文件路径必须是安全相对路径".to_string()));
    assert_eq!(operation_created_at("1700000000000-abc"), 1_700_000_000_000);
    assert_eq!(operation_created_at("+42"), 42);
    assert_eq!(operation_created_at("abc-1"), 0);
    assert_eq!(operation_created_at("99999999999999999999-x"), 0);
    assert_eq!(operation_created_at(""), 0);
}

#[test]
fn quarantine_operations_list_newest_first() {
    let ops = vec![
        quarantine_operation("100-a".to_string(), 1, 1, 0, "m1".to_string()),
        quarantine_operation("300-b".to_string(), 2, 2, 0, "m2".to_string()),
        quarantine_operation("200-c".to_string(), 3, 0, 3, "m3".to_string()),
    ];
    let ordered = order_quarantine_operations(ops);
    let ids: Vec<&str> = ordered.iter().map(|o| o.operation_id.as_str()).collect();
    assert_eq!(ids, vec!["300-b", "200-c", "100-a"]);
    assert_eq!(ordered[0].created_at_ms, 300);
}
