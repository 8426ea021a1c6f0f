//! XMP star ratings: reading the `xmp:Rating` of an XMP packet, given as an
//! attribute (`xmp:Rating="4"`) or as an element (`<xmp:Rating>4</xmp:Rating>`).
//!
//! The XML itself is read by quick_xml; each of its events is handed over as
//! plain values and the rating is decided here.

use vstd::prelude::*;
use crate::reference::{parse_rating, parsed_i8};
use crate::text::{concat, trimmed};

verus! {

#[verifier::external_type_specification]
#[verifier::external_body]
#[verifier::reject_recursive_types(R)]
pub struct ExXmlReader<R>(quick_xml::Reader<R>);

#[verifier::external_type_specification]
#[verifier::external_body]
pub struct ExXmlStart<'a>(quick_xml::events::BytesStart<'a>);

#[verifier::external_type_specification]
#[verifier::external_body]
pub struct ExXmlDecoder(quick_xml::encoding::Decoder);

/// One attribute of an XML element: its qualified name as text (invalid
/// UTF-8 replaced), its local name, and its value decoded and unescaped (or
/// why it could not be).
#[derive(Debug)]
pub struct XmlAttribute {
    pub key: String,
    pub local: Vec<u8>,
    pub value: Result<String, String>,
}

/// An XML element's qualified name as text (invalid UTF-8 replaced), its
/// local name and its attributes in order; an attribute that could not be
/// read is the error text.
#[derive(Debug)]
pub struct XmlElement {
    pub name: String,
    pub local: Vec<u8>,
    pub attributes: Vec<Result<XmlAttribute, String>>,
}

/// An event of the XML reader as plain values.
#[derive(Debug)]
pub enum XmlEvent {
    Start(XmlElement),
    Empty(XmlElement),
    /// An end tag, by local name.
    End(Vec<u8>),
    /// Character data, decoded (or why it could not be).
    Text(Result<String, String>),
    Eof,
    /// A declaration, comment, processing instruction, CDATA or DOCTYPE.
    Other,
    /// The XML is invalid here; the reader's error text.
    Error(String),
}

/// The event, as `next_xml_event` gives it, that the `k`-th read (counting
/// from 0) of a reader made by `open_xml` over the bytes yields. quick_xml's
/// reading depends on the bytes and the reader's configuration alone.
pub uninterp spec fn xml_event_at(input: Seq<u8>, k: nat) -> XmlEvent;

/// The event, as `next_xml_event` gives it, that the `k`-th further read
/// (counting from 0) of a reader in this state yields.
pub uninterp spec fn reader_event_at(reader: quick_xml::Reader<&[u8]>, k: nat) -> XmlEvent;

/// `Reader::from_reader` over the bytes, with `trim_text(true)`: its reads
/// are those of a fresh reader over the bytes.
#[verifier::external_body]
fn open_xml(input: &[u8]) -> (r: quick_xml::Reader<&[u8]>)
    ensures
        forall|k: nat| #[trigger] reader_event_at(r, k) == xml_event_at(input@, k),
{
    let mut reader = quick_xml::Reader::from_reader(input);
    reader.config_mut().trim_text(true);
    reader
}

/// `BytesStart::name` (by `String::from_utf8_lossy`), `local_name` and
/// `attributes`, each attribute with `decode_and_unescape_value`; errors
/// become their texts.
#[verifier::external_body]
pub(crate) fn element_of(e: &quick_xml::events::BytesStart, decoder: quick_xml::encoding::Decoder) -> XmlElement {
    let attribute = |a: quick_xml::events::attributes::Attribute| XmlAttribute {
        key: String::from_utf8_lossy(a.key.as_ref()).into_owned(),
        local: a.key.local_name().as_ref().to_vec(),
        value: a.decode_and_unescape_value(decoder).map(|v| v.into_owned()).map_err(|x| x.to_string()),
    };
    XmlElement {
        name: String::from_utf8_lossy(e.name().as_ref()).into_owned(),
        local: e.local_name().as_ref().to_vec(),
        attributes: e.attributes().map(|a| a.map(attribute).map_err(|x| x.to_string())).collect(),
    }
}

/// `Reader::read_event`, the event given as plain values (text by
/// `BytesText::decode`, an end tag by its local name, errors as their texts).
/// The reader then stands one read further on.
#[verifier::external_body]
fn next_xml_event(reader: &mut quick_xml::Reader<&[u8]>) -> (r: XmlEvent)
    ensures
        r == reader_event_at(*old(reader), 0),
        forall|k: nat| #[trigger] reader_event_at(*final(reader), k) == reader_event_at(*old(reader), k + 1),
{
    let decoder = reader.decoder();
    match reader.read_event() {
        Ok(quick_xml::events::Event::Start(e)) => XmlEvent::Start(element_of(&e, decoder)),
        Ok(quick_xml::events::Event::Empty(e)) => XmlEvent::Empty(element_of(&e, decoder)),
        Ok(quick_xml::events::Event::End(e)) => XmlEvent::End(e.local_name().as_ref().to_vec()),
        Ok(quick_xml::events::Event::Text(t)) => XmlEvent::Text(t.decode().map(|v| v.into_owned()).map_err(|x| x.to_string())),
        Ok(quick_xml::events::Event::Eof) => XmlEvent::Eof,
        Ok(_) => XmlEvent::Other,
        Err(x) => XmlEvent::Error(x.to_string()),
    }
}

// ---------------------------------------------------------------------------
// Deciding the rating
// ---------------------------------------------------------------------------
/// The local name `Rating`.
pub open spec fn rating_name() -> Seq<u8> {
    seq![82u8, 97u8, 116u8, 105u8, 110u8, 103u8]
}

/// A rating text: an integer from -1 to 5, white space around it aside.
pub open spec fn rating_value(s: Seq<char>) -> Result<int, Seq<char>> {
    match parsed_i8(trimmed(s)) {
        None => Err("XMP Rating 不是整数"@),
        Some(v) => if -1 <= v <= 5 {
            Ok(v)
        } else {
            Err("XMP Rating 必须在 -1 到 5 之间"@)
        },
    }
}

/// Where reading stands: element depth, the depth of an open `Rating`
/// element, the rating found, and the outcome once decided.
pub struct ReadState {
    pub depth: int,
    pub rating_depth: Option<int>,
    pub rating: Option<int>,
    pub outcome: Option<Result<Option<int>, Seq<char>>>,
}

pub open spec fn failed(s: ReadState, e: Seq<char>) -> ReadState {
    ReadState { outcome: Some(Err(e)), ..s }
}

/// A rating text found: a second one, or an unreadable one, fails.
pub open spec fn found_rating(s: ReadState, text: Seq<char>) -> ReadState {
    match rating_value(text) {
        Err(e) => failed(s, e),
        Ok(v) => if s.rating is Some {
            failed(s, "XMP 中包含多个 Rating"@)
        } else {
            ReadState { rating: Some(v), ..s }
        },
    }
}

/// The attributes of an element, in order.
pub open spec fn attributes_step(s: ReadState, attributes: Seq<Result<XmlAttribute, String>>, n: nat) -> ReadState
    decreases n,
{
    if n == 0 {
        s
    } else {
        let r = attributes_step(s, attributes, (n - 1) as nat);
        if r.outcome is Some {
            r
        } else {
            match attributes[n - 1] {
                Err(e) => failed(r, "XMP 属性无效："@ + e@),
                Ok(a) => if a.local@ != rating_name() {
                    r
                } else {
                    match a.value {
                        Err(e) => failed(r, "无法读取 XMP Rating："@ + e@),
                        Ok(v) => found_rating(r, v@),
                    }
                },
            }
        }
    }
}

/// One event.
pub open spec fn event_step(s: ReadState, event: XmlEvent) -> ReadState {
    match event {
        XmlEvent::Start(e) => {
            let opened = ReadState { depth: s.depth + 1, ..s };
            let r = attributes_step(opened, e.attributes@, e.attributes@.len());
            if r.outcome is Some || e.local@ != rating_name() {
                r
            } else if r.rating_depth is Some {
                failed(r, "XMP 中包含嵌套的 Rating"@)
            } else {
                ReadState { rating_depth: Some(r.depth), ..r }
            }
        },
        XmlEvent::Empty(e) => attributes_step(s, e.attributes@, e.attributes@.len()),
        XmlEvent::Text(t) => if s.rating_depth == Some(s.depth) {
            match t {
                Err(e) => failed(s, "无法解码 XMP Rating："@ + e@),
                Ok(v) => found_rating(s, v@),
            }
        } else {
            s
        },
        XmlEvent::End(local) => {
            let closed = if local@ == rating_name() && s.rating_depth == Some(s.depth) {
                ReadState { rating_depth: None, ..s }
            } else {
                s
            };
            if closed.depth == 0 {
                failed(closed, "XMP XML 结束标签无效"@)
            } else {
                ReadState { depth: closed.depth - 1, ..closed }
            }
        },
        XmlEvent::Eof => if s.depth == 0 {
            ReadState { outcome: Some(Ok(s.rating)), ..s }
        } else {
            failed(s, "XMP XML 未完整结束"@)
        },
        XmlEvent::Other => s,
        XmlEvent::Error(e) => failed(s, "XMP XML 无效："@ + e@),
    }
}

pub open spec fn start_state() -> ReadState {
    ReadState { depth: 0, rating_depth: None, rating: None, outcome: None }
}

/// The first `n` events, stopping at the first outcome.
pub open spec fn events_step(events: Seq<XmlEvent>, n: nat) -> ReadState
    decreases n,
{
    if n == 0 {
        start_state()
    } else {
        let r = events_step(events, (n - 1) as nat);
        if r.outcome is Some {
            r
        } else {
            event_step(r, events[n - 1])
        }
    }
}

/// The rating an event sequence gives; a sequence that stops early reads
/// as the XML ending there.
pub open spec fn events_rating(events: Seq<XmlEvent>) -> Result<Option<int>, Seq<char>> {
    let r = events_step(events, events.len());
    match r.outcome {
        Some(o) => o,
        None => event_step(r, XmlEvent::Eof).outcome->0,
    }
}

proof fn lemma_events_outcome_stays(events: Seq<XmlEvent>, n: nat, m: nat)
    requires
        n <= m,
        events_step(events, n).outcome is Some,
    ensures
        events_step(events, m) == events_step(events, n),
    decreases m,
{
    if n < m {
        lemma_events_outcome_stays(events, n, (m - 1) as nat);
    }
}

pub open spec fn opt_rating(o: Option<i8>) -> Option<int> {
    match o {
        Some(v) => Some(v as int),
        None => None,
    }
}

/// Exec state mirrors of `ReadState` (without the outcome).
fn is_rating_name(name: &Vec<u8>) -> (r: bool)
    ensures
        r == (name@ == rating_name()),
{
    let ok = name.len() == 6 && name[0] == 82 && name[1] == 97 && name[2] == 116 && name[3] == 105
        && name[4] == 110 && name[5] == 103;
    proof {
        if ok {
            assert(name@ =~= rating_name());
        } else if name@ == rating_name() {
            assert(name@[0] == 82u8 && name@[1] == 97u8 && name@[2] == 116u8);
            assert(name@[3] == 105u8 && name@[4] == 110u8 && name@[5] == 103u8);
        }
    }
    ok
}

fn note_rating(rating: &mut Option<i8>, text: &str) -> (r: Result<(), String>)
    ensures
        ({
            let s = ReadState { depth: 0, rating_depth: None, rating: opt_rating(*old(rating)), outcome: None };
            let t = found_rating(s, text@);
            &&& (t.outcome is None || t.outcome matches Some(Err(_)))
            &&& t.outcome matches Some(Err(e)) ==> (r matches Err(m) && m@ == e)
            &&& t.outcome is None ==> r is Ok && opt_rating(*final(rating)) == t.rating
        }),
{
    let v = parse_rating(text)?;
    if rating.is_some() {
        return Err("XMP 中包含多个 Rating".to_owned());
    }
    *rating = Some(v);
    Ok(())
}

fn attributes_rating(
    attributes: &Vec<Result<XmlAttribute, String>>,
    rating: &mut Option<i8>,
    Ghost(s): Ghost<ReadState>,
) -> (r: Result<(), String>)
    requires
        s.outcome is None,
        s.rating == opt_rating(*old(rating)),
    ensures
        ({
            let t = attributes_step(s, attributes@, attributes@.len());
            &&& (t.outcome is None || t.outcome matches Some(Err(_)))
            &&& t.outcome matches Some(Err(e)) ==> (r matches Err(m) && m@ == e)
            &&& t.outcome is None ==> r is Ok && opt_rating(*final(rating)) == t.rating && t.depth == s.depth
                && t.rating_depth == s.rating_depth
        }),
{
    let mut i: usize = 0;
    while i < attributes.len()
        invariant
            i <= attributes@.len(),
            s.outcome is None,
            ({
                let t = attributes_step(s, attributes@, i as nat);
                &&& t.outcome is None
                &&& t.rating == opt_rating(*rating)
                &&& t.depth == s.depth
                &&& t.rating_depth == s.rating_depth
            }),
        decreases attributes@.len() - i,
    {
        let ghost before = attributes_step(s, attributes@, i as nat);
        match &attributes[i] {
            Err(e) => {
                proof {
                    lemma_attributes_outcome_stays(s, attributes@, (i + 1) as nat, attributes@.len());
                }
                return Err(concat("XMP 属性无效：", e.as_str()));
            },
            Ok(a) => {
                if is_rating_name(&a.local) {
                    match &a.value {
                        Err(e) => {
                            proof {
                                lemma_attributes_outcome_stays(s, attributes@, (i + 1) as nat, attributes@.len());
                            }
                            return Err(concat("无法读取 XMP Rating：", e.as_str()));
                        },
                        Ok(v) => {
                            let ghost rs = ReadState { depth: 0, rating_depth: None, rating: before.rating, outcome: None };
                            match note_rating(rating, v.as_str()) {
                                Ok(()) => {},
                                Err(e) => {
                                    proof {
                                        assert(found_rating(before, v@).outcome == found_rating(rs, v@).outcome);
                                        lemma_attributes_outcome_stays(s, attributes@, (i + 1) as nat, attributes@.len());
                                    }
                                    return Err(e);
                                },
                            }
                        },
                    }
                }
            },
        }
        i = i + 1;
    }
    Ok(())
}

proof fn lemma_attributes_outcome_stays(s: ReadState, attributes: Seq<Result<XmlAttribute, String>>, n: nat, m: nat)
    requires
        n <= m,
        attributes_step(s, attributes, n).outcome is Some,
    ensures
        attributes_step(s, attributes, m) == attributes_step(s, attributes, n),
    decreases m,
{
    if n < m {
        lemma_attributes_outcome_stays(s, attributes, n, (m - 1) as nat);
    }
}

/// The rating an event sequence gives: from the `Rating` attribute of an
/// element or from the text of a `Rating` element; none is `Ok(None)`; two,
/// an out-of-range one, a nested `Rating` element or broken XML fail.
pub fn rating_from_events(events: &Vec<XmlEvent>) -> (r: Result<Option<i8>, String>)
    ensures
        match events_rating(events@) {
            Ok(v) => r matches Ok(x) && opt_rating(x) == v,
            Err(e) => r matches Err(m) && m@ == e,
        },
{
    let mut depth: usize = 0;
    let mut rating_depth: Option<usize> = None;
    let mut rating: Option<i8> = None;
    let mut k: usize = 0;
    while k < events.len()
        invariant
            k <= events@.len(),
            depth <= k,
            ({
                let t = events_step(events@, k as nat);
                &&& t.outcome is None
                &&& t.depth == depth as int
                &&& t.rating_depth == match rating_depth {
                    Some(d) => Some(d as int),
                    None => None::<int>,
                }
                &&& t.rating == opt_rating(rating)
            }),
        decreases events@.len() - k,
    {
        let ghost s = events_step(events@, k as nat);
        let ghost next = event_step(s, events@[k as int]);
        proof {
            assert(events_step(events@, (k + 1) as nat) == next);
        }
        match &events[k] {
            XmlEvent::Start(e) => {
                depth = depth + 1;
                let ghost opened = ReadState { depth: s.depth + 1, ..s };
                match attributes_rating(&e.attributes, &mut rating, Ghost(opened)) {
                    Ok(()) => {},
                    Err(m) => {
                        proof {
                            lemma_events_outcome_stays(events@, (k + 1) as nat, events@.len());
                        }
                        return Err(m);
                    },
                }
                if is_rating_name(&e.local) {
                    if rating_depth.is_some() {
                        proof {
                            lemma_events_outcome_stays(events@, (k + 1) as nat, events@.len());
                        }
                        return Err("XMP 中包含嵌套的 Rating".to_owned());
                    }
                    rating_depth = Some(depth);
                }
            },
            XmlEvent::Empty(e) => {
                match attributes_rating(&e.attributes, &mut rating, Ghost(s)) {
                    Ok(()) => {},
                    Err(m) => {
                        proof {
                            lemma_events_outcome_stays(events@, (k + 1) as nat, events@.len());
                        }
                        return Err(m);
                    },
                }
            },
            XmlEvent::Text(t) => {
                if rating_depth == Some(depth) {
                    match t {
                        Err(e) => {
                            proof {
                                lemma_events_outcome_stays(events@, (k + 1) as nat, events@.len());
                            }
                            return Err(concat("无法解码 XMP Rating：", e.as_str()));
                        },
                        Ok(v) => {
                            match note_rating(&mut rating, v.as_str()) {
                                Ok(()) => {},
                                Err(m) => {
                                    proof {
                                        let rs = ReadState { depth: 0, rating_depth: None, rating: s.rating, outcome: None };
                                        assert(found_rating(s, v@).outcome == found_rating(rs, v@).outcome);
                                        lemma_events_outcome_stays(events@, (k + 1) as nat, events@.len());
                                    }
                                    return Err(m);
                                },
                            }
                        },
                    }
                }
            },
            XmlEvent::End(local) => {
                if is_rating_name(local) && rating_depth == Some(depth) {
                    rating_depth = None;
                }
                if depth == 0 {
                    proof {
                        lemma_events_outcome_stays(events@, (k + 1) as nat, events@.len());
                    }
                    return Err("XMP XML 结束标签无效".to_owned());
                }
                depth = depth - 1;
            },
            XmlEvent::Eof => {
                proof {
                    lemma_events_outcome_stays(events@, (k + 1) as nat, events@.len());
                }
                if depth == 0 {
                    return Ok(rating);
                }
                return Err("XMP XML 未完整结束".to_owned());
            },
            XmlEvent::Other => {},
            XmlEvent::Error(e) => {
                proof {
                    lemma_events_outcome_stays(events@, (k + 1) as nat, events@.len());
                }
                return Err(concat("XMP XML 无效：", e.as_str()));
            },
        }
        k = k + 1;
    }
    if depth == 0 {
        Ok(rating)
    } else {
        Err("XMP XML 未完整结束".to_owned())
    }
}

/// Whether reading stops after this event: the end of input or an error.
pub open spec fn ends_reading(e: XmlEvent) -> bool {
    e is Eof || e is Error
}

/// The events read from the bytes from the `k`-th read on, at most `left`
/// of them, up to and including the first that ends reading.
pub open spec fn events_from(input: Seq<u8>, k: nat, left: nat) -> Seq<XmlEvent>
    decreases left,
{
    if left == 0 {
        Seq::empty()
    } else if ends_reading(xml_event_at(input, k)) || left == 1 {
        seq![xml_event_at(input, k)]
    } else {
        seq![xml_event_at(input, k)] + events_from(input, k + 1, (left - 1) as nat)
    }
}

/// The events that `xmp_rating` reads from a packet: up to the end of input
/// or the first error, and at most one more than the packet has bytes.
pub open spec fn xmp_events(input: Seq<u8>) -> Seq<XmlEvent> {
    events_from(input, 0, input.len() + 1)
}

/// The rating that `xmp_rating` gives for a packet.
pub open spec fn packet_rating(input: Seq<u8>) -> Result<Option<int>, Seq<char>> {
    events_rating(xmp_events(input))
}

/// The events `xmp_events` names, read from the packet.
fn read_xmp_events(input: &[u8]) -> (events: Vec<XmlEvent>)
    ensures
        events@ == xmp_events(input@),
{
    let mut reader = open_xml(input);
    let mut events: Vec<XmlEvent> = Vec::new();
    let mut budget: usize = input.len();
    loop
        invariant_except_break
            budget <= input@.len(),
            events@.len() + budget == input@.len(),
            forall|j: nat| #[trigger] reader_event_at(reader, j) == xml_event_at(input@, events@.len() + j),
            events@ + events_from(input@, events@.len() as nat, (budget + 1) as nat) == xmp_events(input@),
        ensures
            events@ == xmp_events(input@),
        decreases budget,
    {
        let ghost k = events@.len() as nat;
        let ghost r0 = reader;
        let event = next_xml_event(&mut reader);
        assert(event == xml_event_at(input@, k)) by {
            assert(reader_event_at(r0, 0) == xml_event_at(input@, k + 0));
        }
        let done = match &event {
            XmlEvent::Eof => true,
            XmlEvent::Error(_) => true,
            _ => false,
        };
        let ghost before = events@;
        events.push(event);
        if done || budget == 0 {
            assert(events@ == xmp_events(input@)) by {
                assert(events_from(input@, k, (budget + 1) as nat) == seq![xml_event_at(input@, k)]);
                assert(before + seq![xml_event_at(input@, k)] =~= events@);
            }
            break;
        }
        budget = budget - 1;
        assert(events_from(input@, k, (budget + 2) as nat) == seq![xml_event_at(input@, k)] + events_from(input@, k + 1, (budget + 1) as nat));
        assert(before + (seq![xml_event_at(input@, k)] + events_from(input@, k + 1, (budget + 1) as nat))
            =~= events@ + events_from(input@, k + 1, (budget + 1) as nat));
        assert forall|j: nat| #[trigger] reader_event_at(reader, j) == xml_event_at(input@, events@.len() + j) by {
            assert(reader_event_at(reader, j) == reader_event_at(r0, j + 1));
            assert(reader_event_at(r0, j + 1) == xml_event_at(input@, k + (j + 1)));
        }
    }
    events
}

/// Reads the XMP rating of a packet: the events quick_xml reads from it,
/// decided by `rating_from_events`. The reader yields at most one event per
/// input byte before its end; reading stops there.
pub fn xmp_rating(input: &[u8]) -> (r: Result<Option<i8>, String>)
    ensures
        match packet_rating(input@) {
            Ok(v) => r matches Ok(x) && opt_rating(x) == v,
            Err(e) => r matches Err(m) && m@ == e,
        },
        r matches Ok(Some(v)) ==> -1 <= v <= 5,
{
    let events = read_xmp_events(input);
    let r = rating_from_events(&events);
    proof {
        lemma_rating_in_range(events@);
    }
    r
}

// ---------------------------------------------------------------------------
// The lenient reading of reference sidecars
// ---------------------------------------------------------------------------
/// One event as reference sidecars are read: the same attribute and text
/// rules, but without tracking the element structure. A `Rating` element is
/// open from its start until the next start tag or its end tag
/// (`rating_depth` is `Some` while it is); the end of the input ends
/// reading, whatever is still open.
pub open spec fn lenient_event_step(s: ReadState, event: XmlEvent) -> ReadState {
    match event {
        XmlEvent::Start(e) => {
            let r = attributes_step(s, e.attributes@, e.attributes@.len());
            if r.outcome is Some {
                r
            } else {
                ReadState { rating_depth: if e.local@ == rating_name() { Some(0int) } else { None }, ..r }
            }
        },
        XmlEvent::Empty(e) => attributes_step(s, e.attributes@, e.attributes@.len()),
        XmlEvent::Text(t) => if s.rating_depth is Some {
            match t {
                Err(e) => failed(s, "无法解码 XMP Rating："@ + e@),
                Ok(v) => found_rating(s, v@),
            }
        } else {
            s
        },
        XmlEvent::End(local) => if local@ == rating_name() {
            ReadState { rating_depth: None, ..s }
        } else {
            s
        },
        XmlEvent::Eof => ReadState { outcome: Some(Ok(s.rating)), ..s },
        XmlEvent::Other => s,
        XmlEvent::Error(e) => failed(s, "XMP XML 无效："@ + e@),
    }
}

/// The first `n` events read leniently, stopping at the first outcome.
pub open spec fn lenient_events_step(events: Seq<XmlEvent>, n: nat) -> ReadState
    decreases n,
{
    if n == 0 {
        start_state()
    } else {
        let r = lenient_events_step(events, (n - 1) as nat);
        if r.outcome is Some {
            r
        } else {
            lenient_event_step(r, events[n - 1])
        }
    }
}

/// The rating an event sequence gives when read leniently; a sequence that
/// stops early reads as the input ending there.
pub open spec fn lenient_events_rating(events: Seq<XmlEvent>) -> Result<Option<int>, Seq<char>> {
    let r = lenient_events_step(events, events.len());
    match r.outcome {
        Some(o) => o,
        None => Ok(r.rating),
    }
}

proof fn lemma_lenient_outcome_stays(events: Seq<XmlEvent>, n: nat, m: nat)
    requires
        n <= m,
        lenient_events_step(events, n).outcome is Some,
    ensures
        lenient_events_step(events, m) == lenient_events_step(events, n),
    decreases m,
{
    if n < m {
        lemma_lenient_outcome_stays(events, n, (m - 1) as nat);
    }
}

/// Decides the rating of an event sequence leniently (see
/// `lenient_event_step`).
pub fn lenient_rating_from_events(events: &Vec<XmlEvent>) -> (r: Result<Option<i8>, String>)
    ensures
        match lenient_events_rating(events@) {
            Ok(v) => r matches Ok(x) && opt_rating(x) == v,
            Err(e) => r matches Err(m) && m@ == e,
        },
{
    let mut inside = false;
    let mut rating: Option<i8> = None;
    let mut k: usize = 0;
    while k < events.len()
        invariant
            k <= events@.len(),
            ({
                let t = lenient_events_step(events@, k as nat);
                &&& t.outcome is None
                &&& t.depth == 0
                &&& (t.rating_depth is Some <==> inside)
                &&& t.rating == opt_rating(rating)
            }),
        decreases events@.len() - k,
    {
        let ghost s = lenient_events_step(events@, k as nat);
        proof {
            assert(lenient_events_step(events@, (k + 1) as nat) == lenient_event_step(s, events@[k as int]));
        }
        match &events[k] {
            XmlEvent::Start(e) => {
                match attributes_rating(&e.attributes, &mut rating, Ghost(s)) {
                    Ok(()) => {},
                    Err(m) => {
                        proof {
                            lemma_lenient_outcome_stays(events@, (k + 1) as nat, events@.len());
                        }
                        return Err(m);
                    },
                }
                inside = is_rating_name(&e.local);
            },
            XmlEvent::Empty(e) => {
                match attributes_rating(&e.attributes, &mut rating, Ghost(s)) {
                    Ok(()) => {},
                    Err(m) => {
                        proof {
                            lemma_lenient_outcome_stays(events@, (k + 1) as nat, events@.len());
                        }
                        return Err(m);
                    },
                }
            },
            XmlEvent::Text(t) => {
                if inside {
                    match t {
                        Err(e) => {
                            proof {
                                lemma_lenient_outcome_stays(events@, (k + 1) as nat, events@.len());
                            }
                            return Err(concat("无法解码 XMP Rating：", e.as_str()));
                        },
                        Ok(v) => {
                            match note_rating(&mut rating, v.as_str()) {
                                Ok(()) => {},
                                Err(m) => {
                                    proof {
                                        let rs = ReadState { depth: 0, rating_depth: None, rating: s.rating, outcome: None };
                                        assert(found_rating(s, v@).outcome == found_rating(rs, v@).outcome);
                                        lemma_lenient_outcome_stays(events@, (k + 1) as nat, events@.len());
                                    }
                                    return Err(m);
                                },
                            }
                        },
                    }
                }
            },
            XmlEvent::End(local) => {
                if is_rating_name(local) {
                    inside = false;
                }
            },
            XmlEvent::Eof => {
                proof {
                    lemma_lenient_outcome_stays(events@, (k + 1) as nat, events@.len());
                }
                return Ok(rating);
            },
            XmlEvent::Other => {},
            XmlEvent::Error(e) => {
                proof {
                    lemma_lenient_outcome_stays(events@, (k + 1) as nat, events@.len());
                }
                return Err(concat("XMP XML 无效：", e.as_str()));
            },
        }
        k = k + 1;
    }
    Ok(rating)
}

/// The rating a reference source reads from a sidecar.
pub open spec fn reference_rating(input: Seq<u8>) -> Result<Option<int>, Seq<char>> {
    lenient_events_rating(xmp_events(input))
}

/// Reads the rating of a reference sidecar: the same events as `xmp_rating`,
/// read leniently (see `lenient_event_step`).
pub fn reference_xmp_rating(input: &[u8]) -> (r: Result<Option<i8>, String>)
    ensures
        match reference_rating(input@) {
            Ok(v) => r matches Ok(x) && opt_rating(x) == v,
            Err(e) => r matches Err(m) && m@ == e,
        },
{
    let events = read_xmp_events(input);
    lenient_rating_from_events(&events)
}

proof fn lemma_found_rating_in_range(s: ReadState, text: Seq<char>)
    requires
        s.rating matches Some(v) ==> -1 <= v <= 5,
    ensures
        found_rating(s, text).rating matches Some(v) ==> -1 <= v <= 5,
{
}

proof fn lemma_attributes_in_range(s: ReadState, attributes: Seq<Result<XmlAttribute, String>>, n: nat)
    requires
        s.rating matches Some(v) ==> -1 <= v <= 5,
        s.outcome matches Some(Ok(Some(v))) ==> -1 <= v <= 5,
    ensures
        attributes_step(s, attributes, n).rating matches Some(v) ==> -1 <= v <= 5,
        attributes_step(s, attributes, n).outcome matches Some(Ok(Some(v))) ==> -1 <= v <= 5,
    decreases n,
{
    if n > 0 {
        lemma_attributes_in_range(s, attributes, (n - 1) as nat);
    }
}

proof fn lemma_events_in_range(events: Seq<XmlEvent>, n: nat)
    ensures
        events_step(events, n).rating matches Some(v) ==> -1 <= v <= 5,
        events_step(events, n).outcome matches Some(Ok(Some(v))) ==> -1 <= v <= 5,
    decreases n,
{
    if n > 0 {
        lemma_events_in_range(events, (n - 1) as nat);
        let r = events_step(events, (n - 1) as nat);
        if r.outcome is None {
            match events[n - 1] {
                XmlEvent::Start(e) => {
                    lemma_attributes_in_range(ReadState { depth: r.depth + 1, ..r }, e.attributes@, e.attributes@.len());
                },
                XmlEvent::Empty(e) => {
                    lemma_attributes_in_range(r, e.attributes@, e.attributes@.len());
                },
                _ => {},
            }
        }
    }
}

proof fn lemma_rating_in_range(events: Seq<XmlEvent>)
    ensures
        events_rating(events) matches Ok(Some(v)) ==> -1 <= v <= 5,
{
    lemma_events_in_range(events, events.len());
}

} // verus!
