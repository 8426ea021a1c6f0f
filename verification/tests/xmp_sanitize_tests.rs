use framepair::xmp_sanitize::{is_stale_xmp_name, sanitize_preserved_xmp};

#[test]
fn stale_size_and_orientation_names_are_recognised_by_local_part() {
    assert!(is_stale_xmp_name(b"tiff:Orientation"));
    assert!(is_stale_xmp_name(b"exif:PixelXDimension"));
    assert!(is_stale_xmp_name(b"a:b:ImageWidth"));
    assert!(is_stale_xmp_name(b"ExifImageHeight"));
    assert!(!is_stale_xmp_name(b"tiff:Make"));
    assert!(!is_stale_xmp_name(b"Orientation:x"));
}

#[test]
fn stale_attributes_and_elements_are_dropped() {
    let packet = br#"<x:xmpmeta><rdf:Description tiff:Orientation="6" dc:format="image/jpeg"><exif:PixelXDimension>4000</exif:PixelXDimension><dc:title>Trip</dc:title></rdf:Description></x:xmpmeta>"#;
    let cleaned = sanitize_preserved_xmp(packet).expect("cleaned");
    assert_eq!(
        String::from_utf8(cleaned).expect("utf8"),
        r#"<x:xmpmeta><rdf:Description dc:format="image/jpeg"><dc:title>Trip</dc:title></rdf:Description></x:xmpmeta>"#
    );
}

#[test]
fn empty_stale_elements_and_nested_content_are_dropped() {
    let packet = br#"<a><tiff:ImageLength/><tiff:ImageWidth><b>1</b></tiff:ImageWidth><c/></a>"#;
    let cleaned = sanitize_preserved_xmp(packet).expect("cleaned");
    assert_eq!(String::from_utf8(cleaned).expect("utf8"), "<a><c/></a>");
}

#[test]
fn doctypes_invalid_text_and_large_packets_are_refused() {
    assert_eq!(
        sanitize_preserved_xmp(b"<!DOCTYPE x><a/>"),
        Err("XMP 不允许包含文档类型声明".to_string())
    );
    assert_eq!(sanitize_preserved_xmp(&[0x3c, 0xff, 0x3e]), Err("XMP 不是有效的 UTF-8".to_string()));
    let large = vec![b' '; 4 * 1024 * 1024 + 1];
    assert_eq!(sanitize_preserved_xmp(&large), Err("XMP 元数据超过 4 MB 安全限制".to_string()));
    assert!(sanitize_preserved_xmp(b"<a></b>").is_err());
}
