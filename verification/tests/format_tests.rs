use framepair::formats::{is_raw, is_reference, is_sidecar, photo_group_key, sidecar_match_keys};
use framepair::paths::{display_path, safe_relative_path};

#[test]
fn recognizes_supported_raw_families() {
    for name in [
        "a.NEF", "a.NRW", "a.CR2", "a.CR3", "a.ARW", "a.SR2", "a.SRF", "a.RAF", "a.DNG", "a.RW2",
        "a.ORF", "a.PEF",
    ] {
        assert!(is_raw(name), "{name} should be RAW");
    }
    assert!(!is_raw("a.tiff"));
    assert!(!is_raw("a.exe"));
}

#[test]
fn photo_group_keys_are_stable_and_optionally_case_sensitive() {
    assert_eq!(photo_group_key("Day/A.NEF", false), "day/a");
    assert_eq!(photo_group_key("Day/A.JPG", false), "day/a");
    assert_eq!(photo_group_key("Day/A.NEF", true), "Day/A");
}

#[test]
fn xmp_keys_support_both_common_naming_forms() {
    assert_eq!(sidecar_match_keys("day/a.xmp", false), vec!["day/a"]);
    assert_eq!(
        sidecar_match_keys("day/a.NEF.xmp", false),
        vec!["day/a.nef", "day/a"]
    );
}

#[test]
fn safe_relative_path_rejects_every_escape_shape() {
    for value in ["", "   ", "/absolute", "../up", "a/../b", "./here"] {
        assert!(
            safe_relative_path(value, "测试路径").is_err(),
            "expected {value:?} to be rejected"
        );
    }
    assert!(safe_relative_path("day/photo.NEF", "测试路径").is_ok());
}

#[test]
fn display_path_normalizes_separators_for_the_ui() {
    assert_eq!(display_path("day/photo.NEF"), "day/photo.NEF");
    assert_eq!(display_path(r"day\photo.NEF"), "day/photo.NEF");
}

#[test]
fn reference_and_sidecar_extensions_ignore_case() {
    assert!(is_reference("a.JPG"));
    assert!(is_reference("b.jpeg"));
    assert!(!is_reference("a.png"));
    assert!(is_sidecar("a.NEF.XMP"));
    assert!(!is_sidecar("a.xml"));
}

#[test]
fn safe_relative_path_errors_name_the_path_and_the_rule() {
    assert_eq!(
        safe_relative_path("/etc/passwd", "文件路径").unwrap_err(),
        "文件路径必须是安全相对路径"
    );
    assert_eq!(
        safe_relative_path("a/../b", "文件路径").unwrap_err(),
        "文件路径包含不安全片段"
    );
}

#[test]
fn display_path_is_stable_when_applied_twice() {
    let once = display_path(r"a\b\c.NEF");
    assert_eq!(display_path(&once), once);
}
