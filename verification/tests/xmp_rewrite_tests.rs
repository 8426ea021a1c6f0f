use framepair::xmp::xmp_rating;
use framepair::xmp_rewrite::{plan_xmp_rewrite, rewrite_xmp_rating, RewriteStep};
use framepair::xmp::{XmlAttribute, XmlElement, XmlEvent};

#[test]
fn a_new_packet_holds_only_the_rating() {
    let packet = rewrite_xmp_rating(None, 3).expect("new packet");
    let text = String::from_utf8(packet.clone()).expect("utf8");
    assert_eq!(
        text,
        "<?xpacket begin=\"\" id=\"W5M0MpCehiHzreSzNTczkc9d\"?><x:xmpmeta xmlns:x=\"adobe:ns:meta/\"><rdf:RDF xmlns:rdf=\"http://www.w3.org/1999/02/22-rdf-syntax-ns#\"><rdf:Description xmlns:xmp=\"http://ns.adobe.com/xap/1.0/\" xmp:Rating=\"3\"/></rdf:RDF></x:xmpmeta><?xpacket end=\"w\"?>"
    );
    assert_eq!(xmp_rating(&packet), Ok(Some(3)));
}

#[test]
fn ratings_above_five_are_refused() {
    assert_eq!(
        rewrite_xmp_rating(None, 6),
        Err("照片评分必须在 0 到 5 星之间".to_string())
    );
}

#[test]
fn an_attribute_rating_is_replaced_in_place() {
    let input = br#"<x:xmpmeta><rdf:RDF><rdf:Description xmp:Rating="2" dc:format="image/x"/></rdf:RDF></x:xmpmeta>"#;
    let output = rewrite_xmp_rating(Some(input), 5).expect("rewritten");
    assert_eq!(xmp_rating(&output), Ok(Some(5)));
    let text = String::from_utf8(output).expect("utf8");
    assert!(text.contains("xmp:Rating=\"5\""));
    assert!(text.contains("dc:format=\"image/x\""));
}

#[test]
fn an_element_rating_gets_new_text() {
    let input = b"<x:xmpmeta><rdf:Description><xmp:Rating>1</xmp:Rating></rdf:Description></x:xmpmeta>";
    let output = rewrite_xmp_rating(Some(input), 4).expect("rewritten");
    assert_eq!(
        String::from_utf8(output).expect("utf8"),
        "<x:xmpmeta><rdf:Description><xmp:Rating>4</xmp:Rating></rdf:Description></x:xmpmeta>"
    );
}

#[test]
fn a_missing_rating_is_added_to_the_description() {
    let input = br#"<x:xmpmeta><rdf:Description rdf:about=""/></x:xmpmeta>"#;
    let output = rewrite_xmp_rating(Some(input), 2).expect("rewritten");
    assert_eq!(
        String::from_utf8(output.clone()).expect("utf8"),
        r#"<x:xmpmeta><rdf:Description rdf:about="" xmp:Rating="2"/></x:xmpmeta>"#
    );
    assert_eq!(xmp_rating(&output), Ok(Some(2)));
}

#[test]
fn rejected_and_unplaceable_packets_are_refused() {
    assert_eq!(
        rewrite_xmp_rating(Some(br#"<rdf:Description xmp:Rating="-1"/>"#), 3),
        Err("XMP 包含暂不支持的拒绝评分 -1".to_string())
    );
    assert_eq!(
        rewrite_xmp_rating(Some(b"<x:xmpmeta/>"), 3),
        Err("XMP 中没有可安全更新的 rdf:Description".to_string())
    );
    let large = vec![b' '; 4 * 1024 * 1024 + 1];
    assert_eq!(
        rewrite_xmp_rating(Some(&large), 3),
        Err("XMP 数据超过 4 MiB 限制".to_string())
    );
}

fn description(empty: bool, attributes: Vec<Result<XmlAttribute, String>>) -> XmlEvent {
    let element = XmlElement {
        name: "rdf:Description".to_string(),
        local: b"Description".to_vec(),
        attributes,
    };
    if empty { XmlEvent::Empty(element) } else { XmlEvent::Start(element) }
}

fn attribute(key: &str, local: &str, value: &str) -> Result<XmlAttribute, String> {
    Ok(XmlAttribute { key: key.to_string(), local: local.as_bytes().to_vec(), value: Ok(value.to_string()) })
}

#[test]
fn plans_keep_events_and_rebuild_descriptions() {
    let events = vec![
        XmlEvent::Other,
        description(false, vec![attribute("xmp:Rating", "Rating", "1"), attribute("a", "a", "b")]),
        XmlEvent::End(b"Description".to_vec()),
        XmlEvent::Eof,
    ];
    let steps = plan_xmp_rewrite(&events, false, &"4".to_string()).expect("plan");
    assert_eq!(steps.len(), 3);
    assert!(matches!(steps[0], RewriteStep::Keep(0)));
    match &steps[1] {
        RewriteStep::Element { empty, name, attributes } => {
            assert!(!empty);
            assert_eq!(name, "rdf:Description");
            assert_eq!(
                attributes,
                &vec![("xmp:Rating".to_string(), "4".to_string()), ("a".to_string(), "b".to_string())]
            );
        }
        _ => panic!("expected a rebuilt element"),
    }
    assert!(matches!(steps[2], RewriteStep::Keep(2)));
}

#[test]
fn plans_fail_on_unmatched_end_tags_and_bad_attributes() {
    let unmatched = vec![XmlEvent::End(b"x".to_vec())];
    assert_eq!(
        plan_xmp_rewrite(&unmatched, true, &"1".to_string()).err(),
        Some("XMP XML 结束标签无效".to_string())
    );
    let broken = vec![description(true, vec![Err("bad".to_string())])];
    assert_eq!(
        plan_xmp_rewrite(&broken, true, &"1".to_string()).err(),
        Some("XMP 属性无效：bad".to_string())
    );
}
