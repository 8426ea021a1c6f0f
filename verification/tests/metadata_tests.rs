use framepair::jpeg::{
    append_jpeg_segment, extract_jpeg_sidecars, insert_jpeg_sidecars, jpeg_sidecar_insertion_offset,
    strip_jpeg_xmp, JpegSidecars,
};
use framepair::xmp::{reference_xmp_rating, xmp_rating};

const XMP_PREFIX: &[u8] = b"http://ns.adobe.com/xap/1.0/\0";

fn segment(marker: u8, payload: &[u8]) -> Vec<u8> {
    let len = payload.len() + 2;
    let mut out = vec![0xff, marker, (len / 256) as u8, (len % 256) as u8];
    out.extend_from_slice(payload);
    out
}

fn xmp_payload(body: &[u8]) -> Vec<u8> {
    let mut out = XMP_PREFIX.to_vec();
    out.extend_from_slice(body);
    out
}

fn sample_jpeg() -> Vec<u8> {
    let mut jpeg = vec![0xff, 0xd8];
    jpeg.extend(segment(0xe0, b"JFIF\0"));
    jpeg.extend(segment(0xe1, b"Exif\0\0MM"));
    jpeg.extend(segment(0xe1, &xmp_payload(b"<x:xmpmeta/>")));
    jpeg.extend(segment(0xed, b"Photoshop 3.0\0"));
    jpeg.extend([0xff, 0xda, 0x00, 0x02, 0x11, 0x22, 0xff, 0xd9]);
    jpeg
}

#[test]
fn reads_xmp_rating_from_attribute_or_element() {
    let attribute = br#"<rdf:Description xmp:Rating="5" />"#;
    let element = br#"<xmp:Rating>4</xmp:Rating>"#;
    assert_eq!(reference_xmp_rating(attribute).expect("attribute rating"), Some(5));
    assert_eq!(reference_xmp_rating(element).expect("element rating"), Some(4));
    assert_eq!(reference_xmp_rating(b"<x:xmpmeta />").expect("missing rating"), None);
    assert!(reference_xmp_rating(br#"<xmp:Rating>9</xmp:Rating>"#).is_err());
    assert!(reference_xmp_rating(br#"<xmp:Rating>5</xmp:Rating><broken"#).is_err());
}

#[test]
fn reference_sidecars_are_read_leniently() {
    let unclosed = br#"<x:xmpmeta><xmp:Rating>3</xmp:Rating>"#;
    assert_eq!(reference_xmp_rating(unclosed).expect("unclosed packet"), Some(3));
    assert!(xmp_rating(unclosed).is_err());
    let nested = br#"<xmp:Rating><xmp:Rating></xmp:Rating></xmp:Rating>"#;
    assert_eq!(reference_xmp_rating(nested).expect("nested rating elements"), None);
    assert!(xmp_rating(nested).is_err());
    assert_eq!(xmp_rating(br#"<rdf:Description xmp:Rating="5" />"#).expect("strict attribute"), Some(5));
    assert_eq!(xmp_rating(br#"<xmp:Rating>4</xmp:Rating>"#).expect("strict element"), Some(4));
}

#[test]
fn xmp_rating_accepts_the_rejected_marker() {
    assert_eq!(xmp_rating(br#"<rdf:Description xmp:Rating="-1"/>"#).expect("rejected"), Some(-1));
    assert_eq!(xmp_rating(br#"<rdf:Description xmp:Rating="0"/>"#).expect("zero"), Some(0));
    assert!(xmp_rating(br#"<rdf:Description xmp:Rating="x"/>"#).is_err());
}

#[test]
fn extracts_xmp_and_iptc_sidecars_from_the_header() {
    let sidecars = extract_jpeg_sidecars(&sample_jpeg()).expect("sidecars");
    assert_eq!(sidecars.xmp_packets, vec![b"<x:xmpmeta/>".to_vec()]);
    assert_eq!(sidecars.iptc_segments, vec![b"Photoshop 3.0\0".to_vec()]);
}

#[test]
fn rejects_a_truncated_segment() {
    let mut jpeg = vec![0xff, 0xd8];
    jpeg.extend([0xff, 0xe1, 0x00, 0x40, 0x01]);
    assert_eq!(
        extract_jpeg_sidecars(&jpeg).err(),
        Some("JPG 段超出文件范围".to_string())
    );
    assert!(extract_jpeg_sidecars(b"not a jpeg").is_err());
}

#[test]
fn strip_removes_only_xmp_packets() {
    let stripped = strip_jpeg_xmp(&sample_jpeg()).expect("stripped");
    let mut expected = vec![0xff, 0xd8];
    expected.extend(segment(0xe0, b"JFIF\0"));
    expected.extend(segment(0xe1, b"Exif\0\0MM"));
    expected.extend(segment(0xed, b"Photoshop 3.0\0"));
    expected.extend([0xff, 0xda, 0x00, 0x02, 0x11, 0x22, 0xff, 0xd9]);
    assert_eq!(stripped, expected);
}

#[test]
fn insertion_offset_follows_exif_then_app0() {
    let jpeg = sample_jpeg();
    let exif_end = 2 + 4 + 5 + 4 + 8;
    assert_eq!(jpeg_sidecar_insertion_offset(&jpeg), Ok(exif_end));

    let mut plain = vec![0xff, 0xd8];
    plain.extend(segment(0xe0, b"JFIF\0"));
    plain.extend([0xff, 0xda, 0x00, 0x02, 0xff, 0xd9]);
    assert_eq!(jpeg_sidecar_insertion_offset(&plain), Ok(2 + 4 + 5));
}

#[test]
fn append_segment_writes_a_big_endian_length() {
    let mut output = Vec::new();
    append_jpeg_segment(&mut output, 0xed, &[1, 2, 3]).expect("segment");
    assert_eq!(output, vec![0xff, 0xed, 0x00, 0x05, 1, 2, 3]);
    let large = vec![0u8; 65534];
    let mut untouched = vec![9u8];
    assert_eq!(
        append_jpeg_segment(&mut untouched, 0xe1, &large),
        Err("JPG 附加元数据段过大".to_string())
    );
    assert_eq!(untouched, vec![9u8]);
}

#[test]
fn inserted_sidecars_can_be_extracted_again() {
    let mut plain = vec![0xff, 0xd8];
    plain.extend(segment(0xe0, b"JFIF\0"));
    plain.extend([0xff, 0xda, 0x00, 0x02, 0xff, 0xd9]);
    let sidecars = JpegSidecars {
        xmp_packets: vec![b"<x:xmpmeta/>".to_vec()],
        iptc_segments: vec![b"Photoshop 3.0\0".to_vec()],
    };
    insert_jpeg_sidecars(&mut plain, &sidecars).expect("inserted");
    let again = extract_jpeg_sidecars(&plain).expect("extracted");
    assert_eq!(again.xmp_packets, sidecars.xmp_packets);
    assert_eq!(again.iptc_segments, sidecars.iptc_segments);
}

