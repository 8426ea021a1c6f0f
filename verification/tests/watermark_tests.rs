use framepair::watermark::{
    frame_preview_envelope, output_dimensions, output_file_name, validate_suffix, WatermarkOutputFormat,
    WatermarkSizing,
};

#[test]
fn watermark_preview_envelope_prefixes_a_big_endian_header_length() {
    let mut rect = serde_json::Map::new();
    rect.insert("x".to_string(), serde_json::Value::from(12));
    rect.insert("y".to_string(), serde_json::Value::from(8));
    rect.insert("width".to_string(), serde_json::Value::from(296));
    rect.insert("height".to_string(), serde_json::Value::from(170));
    let mut header = serde_json::Map::new();
    header.insert("width".to_string(), serde_json::Value::from(320));
    header.insert("height".to_string(), serde_json::Value::from(200));
    header.insert(
        "warnings".to_string(),
        serde_json::Value::Array(vec![serde_json::Value::from("字体已回退")]),
    );
    header.insert("photoRect".to_string(), serde_json::Value::Object(rect));
    header.insert("layers".to_string(), serde_json::Value::Array(Vec::new()));
    let json = serde_json::to_vec(&serde_json::Value::Object(header)).unwrap();
    let png = [137, 80, 78, 71];
    let envelope = frame_preview_envelope(&json, &png).unwrap();
    let header_length = u32::from_be_bytes(envelope[..4].try_into().unwrap()) as usize;
    let decoded: serde_json::Value = serde_json::from_slice(&envelope[4..4 + header_length]).unwrap();
    assert_eq!(decoded["width"], 320);
    assert_eq!(decoded["height"], 200);
    assert_eq!(&envelope[4 + header_length..], png);
}

#[test]
fn envelope_length_bytes_are_exact() {
    let json = vec![b'x'; 0x0102];
    let envelope = frame_preview_envelope(&json, &[7]).unwrap();
    assert_eq!(&envelope[..4], &[0, 0, 1, 2]);
    assert_eq!(envelope.len(), 4 + 0x0102 + 1);
    assert_eq!(envelope[4 + 0x0102], 7);
}

#[test]
fn long_edge_outputs_scale_and_round_both_sides() {
    let sizing = WatermarkSizing::LongEdge { pixels: 2000, allow_upscale: false };
    assert_eq!(output_dimensions(6000, 4000, &sizing), Ok((2000, 1333, Some(2000))));
    assert_eq!(output_dimensions(4000, 6000, &sizing), Ok((1333, 2000, Some(2000))));
    let keep = WatermarkSizing::LongEdge { pixels: 8000, allow_upscale: false };
    assert_eq!(output_dimensions(6000, 4000, &keep), Ok((6000, 4000, None)));
    let grow = WatermarkSizing::LongEdge { pixels: 8000, allow_upscale: true };
    assert_eq!(output_dimensions(6000, 4000, &grow), Ok((8000, 5333, Some(8000))));
    let thin = WatermarkSizing::LongEdge { pixels: 64, allow_upscale: false };
    assert_eq!(output_dimensions(10000, 1, &thin), Ok((64, 1, Some(64))));
}

#[test]
fn original_sizing_and_invalid_requests() {
    let original = WatermarkSizing::Original { allow_upscale: false };
    assert_eq!(output_dimensions(300, 200, &original), Ok((300, 200, None)));
    assert_eq!(output_dimensions(0, 200, &original), Err("来源照片尺寸无效".to_string()));
    let small = WatermarkSizing::LongEdge { pixels: 63, allow_upscale: true };
    assert_eq!(
        output_dimensions(300, 200, &small),
        Err("输出长边必须在 64 到 32768 像素之间".to_string())
    );
}

#[test]
fn suffixes_reject_reserved_characters_trailing_dots_and_length() {
    assert_eq!(validate_suffix("_wm"), Ok(()));
    assert_eq!(validate_suffix(""), Ok(()));
    assert_eq!(validate_suffix("a/b"), Err("文件名后缀包含系统不允许的字符".to_string()));
    assert_eq!(validate_suffix("a\u{7}"), Err("文件名后缀包含系统不允许的字符".to_string()));
    assert_eq!(validate_suffix("wm."), Err("文件名后缀不能以空格或句点结尾".to_string()));
    assert_eq!(validate_suffix("wm "), Err("文件名后缀不能以空格或句点结尾".to_string()));
    assert_eq!(validate_suffix(&"a".repeat(120)), Ok(()));
    assert_eq!(validate_suffix(&"a".repeat(121)), Err("文件名后缀过长".to_string()));
    assert_eq!(validate_suffix(&"😀".repeat(61)), Err("文件名后缀过长".to_string()));
}

#[test]
fn output_names_append_suffix_sequence_and_extension() {
    assert_eq!(output_file_name("IMG_1", "_wm", None, WatermarkOutputFormat::Jpeg), "IMG_1_wm.jpg");
    assert_eq!(output_file_name("IMG_1", "_wm", Some(2), WatermarkOutputFormat::Png), "IMG_1_wm_2.png");
}
