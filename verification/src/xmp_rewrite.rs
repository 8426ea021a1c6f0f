//! Writing a star rating into an XMP packet: a new packet when there is
//! none, otherwise the packet rewritten event by event with its
//! `rdf:Description` attributes or its `xmp:Rating` element text replaced.
//!
//! quick_xml reads and writes the XML; which events are kept, which elements
//! are rebuilt with which attributes, and where the rating text goes is
//! decided here by `plan_xmp_rewrite`.

use vstd::prelude::*;
use quick_xml::events::Event;
use vstd::utf8::encode_utf8;
use crate::text::{chars_of, concat, decimal, decimal_text};
use crate::xmp::{element_of, ends_reading, packet_rating, rating_name, xmp_rating, XmlAttribute, XmlElement, XmlEvent};

verus! {

#[verifier::external_type_specification]
#[verifier::external_body]
pub struct ExXmlEvent<'a>(quick_xml::events::Event<'a>);

#[verifier::external_type_specification]
#[verifier::external_body]
#[verifier::reject_recursive_types(W)]
pub struct ExXmlWriter<W>(quick_xml::Writer<W>);

/// The event, as plain values, that the `k`-th read (counting from 0) of a
/// reader made by `open_raw_xml` over the bytes yields (a read error as its
/// text), with the bytes that `Writer::write_event` writes for that event to
/// a writer that does not indent (for a read error these bytes are not used).
/// quick_xml's reading and writing depend on these values alone.
pub uninterp spec fn raw_read_at(input: Seq<u8>, k: nat) -> (XmlEvent, Seq<u8>);

/// The same for the `k`-th further read (counting from 0) of a reader in
/// this state.
pub uninterp spec fn raw_reader_read_at(reader: quick_xml::Reader<&[u8]>, k: nat) -> (XmlEvent, Seq<u8>);

/// The bytes that `Writer::write_event` writes for this event to a writer
/// that does not indent.
pub uninterp spec fn event_bytes(event: quick_xml::events::Event) -> Seq<u8>;

/// `Reader::from_reader` over the bytes, with the default configuration
/// (text is kept as it is, white space included): its reads are those of a
/// fresh reader over the bytes.
#[verifier::external_body]
fn open_raw_xml(input: &[u8]) -> (r: quick_xml::Reader<&[u8]>)
    ensures
        forall|k: nat| #[trigger] raw_reader_read_at(r, k) == raw_read_at(input@, k),
{
    quick_xml::Reader::from_reader(input)
}

/// `Reader::read_event`: the event, and the event as plain values (elements
/// through `element_of`, an end tag by its local name, text by
/// `BytesText::decode`, other kinds `Other`); a read error gives no event and
/// its text. The reader then stands one read further on.
#[verifier::external_body]
fn read_raw_view<'a>(reader: &mut quick_xml::Reader<&'a [u8]>) -> (r: (Option<quick_xml::events::Event<'a>>, XmlEvent))
    ensures
        r.1 == raw_reader_read_at(*old(reader), 0).0,
        r.0 is None <==> r.1 is Error,
        r.0 matches Some(e) ==> event_bytes(e) == raw_reader_read_at(*old(reader), 0).1,
        forall|k: nat| #[trigger] raw_reader_read_at(*final(reader), k) == raw_reader_read_at(*old(reader), k + 1),
{
    let decoder = reader.decoder();
    let event = match reader.read_event() {
        Ok(event) => event,
        Err(x) => return (None, XmlEvent::Error(x.to_string())),
    };
    let view = match &event {
        Event::Start(e) => XmlEvent::Start(element_of(e, decoder)),
        Event::Empty(e) => XmlEvent::Empty(element_of(e, decoder)),
        Event::End(e) => XmlEvent::End(e.local_name().as_ref().to_vec()),
        Event::Text(t) => XmlEvent::Text(t.decode().map(|v| v.into_owned()).map_err(|x| x.to_string())),
        Event::Eof => XmlEvent::Eof,
        _ => XmlEvent::Other,
    };
    (Some(event), view)
}

/// The bytes that a writer over a `Vec<u8>` holds: its underlying vector.
pub uninterp spec fn writer_bytes(writer: quick_xml::Writer<Vec<u8>>) -> Seq<u8>;

/// Whether a writer was made with indentation (`Writer::new_with_indent`);
/// writing an event never changes this.
pub uninterp spec fn writer_indents(writer: quick_xml::Writer<Vec<u8>>) -> bool;

/// A character as `quick_xml::escape::escape` writes it: `<`, `>`, `&`, `'`
/// and `"` become `&lt;`, `&gt;`, `&amp;`, `&apos;` and `&quot;`.
pub open spec fn xml_escape_char(c: char) -> Seq<char> {
    if c == '<' {
        "&lt;"@
    } else if c == '>' {
        "&gt;"@
    } else if c == '&' {
        "&amp;"@
    } else if c == '\'' {
        "&apos;"@
    } else if c == '"' {
        "&quot;"@
    } else {
        seq![c]
    }
}

/// A text escaped character by character (see `xml_escape_char`).
pub open spec fn xml_escape(s: Seq<char>) -> Seq<char>
    decreases s.len(),
{
    if s.len() == 0 {
        Seq::empty()
    } else {
        xml_escape(s.drop_last()) + xml_escape_char(s.last())
    }
}

/// The attributes of a tag as `BytesStart::push_attribute` adds them: each as
/// a space, the key, `="`, the escaped value and `"`.
pub open spec fn xml_attributes_text(attributes: Seq<(Seq<char>, Seq<char>)>) -> Seq<char>
    decreases attributes.len(),
{
    if attributes.len() == 0 {
        Seq::empty()
    } else {
        xml_attributes_text(attributes.drop_last()) + " "@ + attributes.last().0 + "=\""@ + xml_escape(attributes.last().1)
            + "\""@
    }
}

/// The bytes that `Writer::write_event` writes, without indentation, for an
/// element made by `BytesStart::new` with the name and then
/// `BytesStart::extend_attributes` with the pairs in order: `<`, the name,
/// the attributes, then `/>` for an empty element or `>` for a start tag, as
/// UTF-8.
pub open spec fn xml_tag_bytes(name: Seq<char>, attributes: Seq<(Seq<char>, Seq<char>)>, empty: bool) -> Seq<u8> {
    encode_utf8("<"@ + name + xml_attributes_text(attributes) + if empty { "/>"@ } else { ">"@ })
}

/// `Writer::new` over an empty `Vec` with the given capacity: the writer
/// holds no bytes and does not indent.
#[verifier::external_body]
pub(crate) fn new_xml_writer(capacity: usize) -> (r: quick_xml::Writer<Vec<u8>>)
    ensures
        writer_bytes(r) == Seq::<u8>::empty(),
        !writer_indents(r),
{
    quick_xml::Writer::new(Vec::with_capacity(capacity))
}

/// `Writer::write_event` of an event as it was read; an error would become
/// its text. Writing into a `Vec` cannot fail (`Write for Vec<u8>` appends
/// and `write_event` only writes), so the result is `Ok`, and a writer that
/// does not indent then holds what it held before followed by the event's
/// bytes.
#[verifier::external_body]
pub(crate) fn write_kept_event(writer: &mut quick_xml::Writer<Vec<u8>>, event: &quick_xml::events::Event) -> (r: Result<(), String>)
    ensures
        writer_indents(*final(writer)) == writer_indents(*old(writer)),
        r is Ok,
        !writer_indents(*old(writer)) ==> writer_bytes(*final(writer)) == writer_bytes(*old(writer)) + event_bytes(*event),
{
    writer.write_event(event.borrow()).map_err(|x| x.to_string())
}

/// `Writer::write_event` of `Event::Start` for an element made by
/// `BytesStart::new` with the name and `BytesStart::extend_attributes` with
/// the pairs in order; an error would become its text. Writing into a `Vec`
/// cannot fail, so the result is `Ok`, and a writer that does not indent
/// then holds what it held before followed by the tag's bytes.
#[verifier::external_body]
fn write_start_element(writer: &mut quick_xml::Writer<Vec<u8>>, name: &str, attributes: &Vec<(String, String)>) -> (r: Result<(), String>)
    ensures
        writer_indents(*final(writer)) == writer_indents(*old(writer)),
        r is Ok,
        !writer_indents(*old(writer)) ==> writer_bytes(*final(writer)) == writer_bytes(*old(writer)) + xml_tag_bytes(name@, pairs_view(attributes@), false),
{
    let mut element = quick_xml::events::BytesStart::new(name);
    element.extend_attributes(attributes.iter().map(|p| (p.0.as_str(), p.1.as_str())));
    writer.write_event(quick_xml::events::Event::Start(element)).map_err(|x| x.to_string())
}

/// `Writer::write_event` of `Event::Empty` for an element made as for
/// `write_start_element`; an error would become its text. Writing into a
/// `Vec` cannot fail, so the result is `Ok`, and a writer that does not
/// indent then holds what it held before followed by the tag's bytes.
#[verifier::external_body]
fn write_empty_element(writer: &mut quick_xml::Writer<Vec<u8>>, name: &str, attributes: &Vec<(String, String)>) -> (r: Result<(), String>)
    ensures
        writer_indents(*final(writer)) == writer_indents(*old(writer)),
        r is Ok,
        !writer_indents(*old(writer)) ==> writer_bytes(*final(writer)) == writer_bytes(*old(writer)) + xml_tag_bytes(name@, pairs_view(attributes@), true),
{
    let mut element = quick_xml::events::BytesStart::new(name);
    element.extend_attributes(attributes.iter().map(|p| (p.0.as_str(), p.1.as_str())));
    writer.write_event(quick_xml::events::Event::Empty(element)).map_err(|x| x.to_string())
}

/// The bytes that `Writer::write_event` writes, without indentation, for
/// `Event::Text` made by `BytesText::new` from the text: the text escaped,
/// as UTF-8.
pub open spec fn xml_text_bytes(text: Seq<char>) -> Seq<u8> {
    encode_utf8(xml_escape(text))
}

/// `Writer::write_event` of `Event::Text` made by `BytesText::new` (escaped);
/// an error would become its text. Writing into a `Vec` cannot fail, so the
/// result is `Ok`, and a writer that does not indent then holds what it held
/// before followed by the text's bytes.
#[verifier::external_body]
fn write_xml_text(writer: &mut quick_xml::Writer<Vec<u8>>, text: &str) -> (r: Result<(), String>)
    ensures
        writer_indents(*final(writer)) == writer_indents(*old(writer)),
        r is Ok,
        !writer_indents(*old(writer)) ==> writer_bytes(*final(writer)) == writer_bytes(*old(writer)) + xml_text_bytes(text@),
{
    writer.write_event(quick_xml::events::Event::Text(quick_xml::events::BytesText::new(text))).map_err(|x| x.to_string())
}

/// `Writer::into_inner`: the bytes written.
#[verifier::external_body]
pub(crate) fn written_bytes(writer: quick_xml::Writer<Vec<u8>>) -> (r: Vec<u8>)
    ensures
        r@ == writer_bytes(writer),
{
    writer.into_inner()
}

// ---------------------------------------------------------------------------
// The rewrite plan
// ---------------------------------------------------------------------------
/// The local name `Description`.
pub open spec fn description_name() -> Seq<u8> {
    seq![68u8, 101u8, 115u8, 99u8, 114u8, 105u8, 112u8, 116u8, 105u8, 111u8, 110u8]
}

/// What to write for one step of the rewrite.
#[derive(Debug)]
pub enum RewriteStep {
    /// The event read at this position, unchanged.
    Keep(usize),
    /// A rebuilt element: its name and its attributes in order.
    Element { empty: bool, name: String, attributes: Vec<(String, String)> },
    /// The new rating as the text of the `Rating` element.
    RatingText,
}

pub enum StepView {
    Keep(int),
    Element { empty: bool, name: Seq<char>, attributes: Seq<(Seq<char>, Seq<char>)> },
    RatingText,
}

pub open spec fn pairs_view(v: Seq<(String, String)>) -> Seq<(Seq<char>, Seq<char>)> {
    v.map_values(|p: (String, String)| (p.0@, p.1@))
}

impl RewriteStep {
    pub open spec fn view(&self) -> StepView {
        match self {
            RewriteStep::Keep(k) => StepView::Keep(*k as int),
            RewriteStep::Element { empty, name, attributes } => StepView::Element {
                empty: *empty,
                name: name@,
                attributes: pairs_view(attributes@),
            },
            RewriteStep::RatingText => StepView::RatingText,
        }
    }
}

pub open spec fn steps_view(v: Seq<RewriteStep>) -> Seq<StepView> {
    v.map_values(|s: RewriteStep| s.view())
}

/// The first `n` attributes of a `Description`, a `Rating` one given the new
/// rating; with whether one was replaced, or the first unreadable attribute.
pub open spec fn description_attributes(attrs: Seq<Result<XmlAttribute, String>>, n: nat, rating: Seq<char>) -> Result<(Seq<(Seq<char>, Seq<char>)>, bool), Seq<char>>
    decreases n,
{
    if n == 0 {
        Ok((seq![], false))
    } else {
        match description_attributes(attrs, (n - 1) as nat, rating) {
            Err(e) => Err(e),
            Ok(done) => match attrs[n - 1] {
                Err(e) => Err("XMP 属性无效："@ + e@),
                Ok(a) => match a.value {
                    Err(e) => Err("无法读取 XMP 属性："@ + e@),
                    Ok(v) => if a.local@ == rating_name() {
                        Ok((done.0.push((a.key@, rating)), true))
                    } else {
                        Ok((done.0.push((a.key@, v@)), done.1))
                    },
                },
            },
        }
    }
}

/// A `Description`'s attributes after the rewrite: `xmp:Rating` is added at
/// the end when asked for and none was replaced.
pub open spec fn rewritten_attributes(attrs: Seq<Result<XmlAttribute, String>>, rating: Seq<char>, insert: bool) -> Result<(Seq<(Seq<char>, Seq<char>)>, bool), Seq<char>> {
    match description_attributes(attrs, attrs.len(), rating) {
        Err(e) => Err(e),
        Ok(done) => if insert && !done.1 {
            Ok((done.0.push(("xmp:Rating"@, rating)), true))
        } else {
            Ok(done)
        },
    }
}

/// Where the rewrite stands: element depth, the depth of an open `Rating`
/// element, whether its text was written, whether a `Description` was seen
/// and whether the rating was placed; the steps so far and the outcome once
/// decided.
pub struct RewriteState {
    pub depth: int,
    pub rating_depth: Option<int>,
    pub text_written: bool,
    pub description_found: bool,
    pub rating_updated: bool,
    pub steps: Seq<StepView>,
    pub outcome: Option<Result<(), Seq<char>>>,
}

pub open spec fn rewrite_start() -> RewriteState {
    RewriteState {
        depth: 0,
        rating_depth: None,
        text_written: false,
        description_found: false,
        rating_updated: false,
        steps: seq![],
        outcome: None,
    }
}

pub open spec fn rewrite_failed(s: RewriteState, e: Seq<char>) -> RewriteState {
    RewriteState { outcome: Some(Err(e)), ..s }
}

/// A `Description` element (start or empty) met in state `s`.
pub open spec fn description_step(s: RewriteState, e: XmlElement, empty: bool, missing: bool, rating: Seq<char>) -> RewriteState {
    match rewritten_attributes(e.attributes@, rating, missing && !s.rating_updated) {
        Err(m) => rewrite_failed(s, m),
        Ok(done) => RewriteState {
            description_found: true,
            rating_updated: s.rating_updated || done.1,
            steps: s.steps.push(StepView::Element { empty, name: e.name@, attributes: done.0 }),
            ..s
        },
    }
}

/// One event, read at position `k`. `missing` says that the packet has no
/// rating yet; `rating` is the new rating's text.
pub open spec fn rewrite_event(s: RewriteState, event: XmlEvent, k: int, missing: bool, rating: Seq<char>) -> RewriteState {
    match event {
        XmlEvent::Start(e) => {
            let opened = RewriteState { depth: s.depth + 1, ..s };
            if e.local@ == description_name() {
                description_step(opened, e, false, missing, rating)
            } else if e.local@ == rating_name() {
                RewriteState {
                    rating_depth: Some(opened.depth),
                    text_written: false,
                    rating_updated: true,
                    steps: s.steps.push(StepView::Keep(k)),
                    ..opened
                }
            } else {
                RewriteState { steps: s.steps.push(StepView::Keep(k)), ..opened }
            }
        },
        XmlEvent::Empty(e) => if e.local@ == description_name() {
            description_step(s, e, true, missing, rating)
        } else {
            RewriteState { steps: s.steps.push(StepView::Keep(k)), ..s }
        },
        XmlEvent::Text(_) => if s.rating_depth == Some(s.depth) {
            if !s.text_written {
                RewriteState { steps: s.steps.push(StepView::RatingText), text_written: true, ..s }
            } else {
                s
            }
        } else {
            RewriteState { steps: s.steps.push(StepView::Keep(k)), ..s }
        },
        XmlEvent::End(local) => {
            let closed = if local@ == rating_name() && s.rating_depth == Some(s.depth) {
                RewriteState {
                    steps: if !s.text_written { s.steps.push(StepView::RatingText) } else { s.steps },
                    rating_depth: None,
                    ..s
                }
            } else {
                s
            };
            let kept = RewriteState { steps: closed.steps.push(StepView::Keep(k)), ..closed };
            if kept.depth == 0 {
                rewrite_failed(kept, "XMP XML 结束标签无效"@)
            } else {
                RewriteState { depth: kept.depth - 1, ..kept }
            }
        },
        XmlEvent::Eof => RewriteState { outcome: Some(Ok(())), ..s },
        XmlEvent::Other => RewriteState { steps: s.steps.push(StepView::Keep(k)), ..s },
        XmlEvent::Error(e) => rewrite_failed(s, "XMP XML 无效："@ + e@),
    }
}

/// The first `n` events, stopping at the first outcome.
pub open spec fn rewrite_events(events: Seq<XmlEvent>, n: nat, missing: bool, rating: Seq<char>) -> RewriteState
    decreases n,
{
    if n == 0 {
        rewrite_start()
    } else {
        let r = rewrite_events(events, (n - 1) as nat, missing, rating);
        if r.outcome is Some {
            r
        } else {
            rewrite_event(r, events[n - 1], n - 1, missing, rating)
        }
    }
}

/// The steps that rewrite a packet read as `events` (a sequence that stops
/// early reads as the XML ending there), or why it cannot be rewritten.
pub open spec fn rewrite_plan(events: Seq<XmlEvent>, missing: bool, rating: Seq<char>) -> Result<Seq<StepView>, Seq<char>> {
    let r = rewrite_events(events, events.len(), missing, rating);
    match r.outcome {
        Some(Err(e)) => Err(e),
        _ => if !r.description_found || !r.rating_updated {
            Err("XMP 中没有可安全更新的 rdf:Description"@)
        } else {
            Ok(r.steps)
        },
    }
}

proof fn lemma_rewrite_outcome_stays(events: Seq<XmlEvent>, n: nat, m: nat, missing: bool, rating: Seq<char>)
    requires
        n <= m,
        rewrite_events(events, n, missing, rating).outcome is Some,
    ensures
        rewrite_events(events, m, missing, rating) == rewrite_events(events, n, missing, rating),
    decreases m,
{
    if n < m {
        lemma_rewrite_outcome_stays(events, n, (m - 1) as nat, missing, rating);
    }
}

/// Every kept step names an event read before the first outcome, which is
/// neither the end nor an error.
pub open spec fn keeps_read_events(steps: Seq<StepView>, events: Seq<XmlEvent>) -> bool {
    forall|i: int| 0 <= i < steps.len() ==> (#[trigger] steps[i] matches StepView::Keep(k) ==> 0 <= k < events.len()
        && !(events[k] is Eof) && !(events[k] is Error))
}

proof fn lemma_keeps_read_events(events: Seq<XmlEvent>, n: nat, missing: bool, rating: Seq<char>)
    requires
        n <= events.len(),
    ensures
        keeps_read_events(rewrite_events(events, n, missing, rating).steps, events),
    decreases n,
{
    if n > 0 {
        lemma_keeps_read_events(events, (n - 1) as nat, missing, rating);
        let r = rewrite_events(events, (n - 1) as nat, missing, rating);
        let t = rewrite_events(events, n, missing, rating);
        if r.outcome is None {
            assert forall|i: int| 0 <= i < t.steps.len() implies (#[trigger] t.steps[i] matches StepView::Keep(k) ==> 0 <= k
                < events.len() && !(events[k] is Eof) && !(events[k] is Error)) by {
                if i < r.steps.len() {
                    match events[n - 1] {
                        XmlEvent::End(_) => {
                            if i >= r.steps.len() {
                            } else {
                                assert(t.steps[i] == r.steps[i]);
                            }
                        },
                        XmlEvent::Start(e) => {
                            if e.local@ == description_name() {
                                let o = RewriteState { depth: r.depth + 1, ..r };
                                if rewritten_attributes(e.attributes@, rating, missing && !o.rating_updated) is Ok {
                                    assert(t.steps[i] == r.steps[i]);
                                }
                            } else {
                                assert(t.steps[i] == r.steps[i]);
                            }
                        },
                        XmlEvent::Empty(e) => {
                            if e.local@ == description_name() {
                                if rewritten_attributes(e.attributes@, rating, missing && !r.rating_updated) is Ok {
                                    assert(t.steps[i] == r.steps[i]);
                                }
                            } else {
                                assert(t.steps[i] == r.steps[i]);
                            }
                        },
                        XmlEvent::Text(_) => {
                            if r.rating_depth == Some(r.depth) && !r.text_written {
                                assert(t.steps[i] == r.steps[i]);
                            } else if r.rating_depth != Some(r.depth) {
                                assert(t.steps[i] == r.steps[i]);
                            }
                        },
                        XmlEvent::Other => {
                            assert(t.steps[i] == r.steps[i]);
                        },
                        _ => {},
                    }
                }
            }
        }
    }
}

/// The attributes of a `Description` element after the rewrite.
fn rewrite_description(element: &XmlElement, rating: &String, insert: bool) -> (r: Result<(Vec<(String, String)>, bool), String>)
    ensures
        match rewritten_attributes(element.attributes@, rating@, insert) {
            Ok(d) => r matches Ok(v) && pairs_view(v.0@) == d.0 && v.1 == d.1,
            Err(e) => r matches Err(m) && m@ == e,
        },
{
    let attrs = &element.attributes;
    let mut out: Vec<(String, String)> = Vec::new();
    let mut replaced = false;
    let mut i: usize = 0;
    while i < attrs.len()
        invariant
            i <= attrs@.len(),
            attrs@ == element.attributes@,
            description_attributes(attrs@, i as nat, rating@) matches Ok(d) && pairs_view(out@) == d.0 && replaced == d.1,
        decreases attrs@.len() - i,
    {
        match &attrs[i] {
            Err(e) => {
                proof {
                    assert(description_attributes(attrs@, (i + 1) as nat, rating@) == Err::<(Seq<(Seq<char>, Seq<char>)>, bool), Seq<char>>("XMP 属性无效："@ + e@));
                    lemma_description_error_stays(attrs@, (i + 1) as nat, attrs@.len(), rating@);
                }
                return Err(concat("XMP 属性无效：", e.as_str()));
            },
            Ok(a) => match &a.value {
                Err(e) => {
                    proof {
                        assert(description_attributes(attrs@, (i + 1) as nat, rating@) == Err::<(Seq<(Seq<char>, Seq<char>)>, bool), Seq<char>>("无法读取 XMP 属性："@ + e@));
                        lemma_description_error_stays(attrs@, (i + 1) as nat, attrs@.len(), rating@);
                    }
                    return Err(concat("无法读取 XMP 属性：", e.as_str()));
                },
                Ok(v) => {
                    if is_name(&a.local, 82, 97, 116, 105, 110, 103) {
                        out.push((a.key.clone(), rating.clone()));
                        replaced = true;
                    } else {
                        out.push((a.key.clone(), v.clone()));
                    }
                    assert(pairs_view(out@) =~= description_attributes(attrs@, (i + 1) as nat, rating@)->Ok_0.0);
                },
            },
        }
        i = i + 1;
    }
    if insert && !replaced {
        out.push(("xmp:Rating".to_owned(), rating.clone()));
        replaced = true;
        assert(pairs_view(out@) =~= rewritten_attributes(attrs@, rating@, insert)->Ok_0.0);
    }
    Ok((out, replaced))
}

proof fn lemma_description_error_stays(attrs: Seq<Result<XmlAttribute, String>>, n: nat, m: nat, rating: Seq<char>)
    requires
        n <= m,
        description_attributes(attrs, n, rating) is Err,
    ensures
        description_attributes(attrs, m, rating) == description_attributes(attrs, n, rating),
    decreases m,
{
    if n < m {
        lemma_description_error_stays(attrs, n, (m - 1) as nat, rating);
    }
}

/// Whether `name` is `Rating` (the six bytes given).
fn is_name(name: &Vec<u8>, b0: u8, b1: u8, b2: u8, b3: u8, b4: u8, b5: u8) -> (r: bool)
    ensures
        r == (name@ == seq![b0, b1, b2, b3, b4, b5]),
{
    let ok = name.len() == 6 && name[0] == b0 && name[1] == b1 && name[2] == b2 && name[3] == b3
        && name[4] == b4 && name[5] == b5;
    proof {
        if ok {
            assert(name@ =~= seq![b0, b1, b2, b3, b4, b5]);
        }
    }
    ok
}

fn is_description(name: &Vec<u8>) -> (r: bool)
    ensures
        r == (name@ == description_name()),
{
    let ok = name.len() == 11 && name[0] == 68 && name[1] == 101 && name[2] == 115 && name[3] == 99
        && name[4] == 114 && name[5] == 105 && name[6] == 112 && name[7] == 116 && name[8] == 105
        && name[9] == 111 && name[10] == 110;
    proof {
        if ok {
            assert(name@ =~= description_name());
        } else if name@ == description_name() {
            assert(name@[0] == 68u8 && name@[1] == 101u8 && name@[2] == 115u8 && name@[3] == 99u8);
            assert(name@[4] == 114u8 && name@[5] == 105u8 && name@[6] == 112u8 && name@[7] == 116u8);
            assert(name@[8] == 105u8 && name@[9] == 111u8 && name@[10] == 110u8);
        }
    }
    ok
}

fn finish_plan(description_found: bool, rating_updated: bool, steps: Vec<RewriteStep>) -> (r: Result<Vec<RewriteStep>, String>)
    ensures
        !description_found || !rating_updated ==> (r matches Err(m) && m@ == "XMP 中没有可安全更新的 rdf:Description"@),
        description_found && rating_updated ==> (r matches Ok(v) && v@ == steps@),
{
    if !description_found || !rating_updated {
        Err("XMP 中没有可安全更新的 rdf:Description".to_owned())
    } else {
        Ok(steps)
    }
}

pub open spec fn opt_depth(o: Option<usize>) -> Option<int> {
    match o {
        Some(d) => Some(d as int),
        None => None,
    }
}

/// The steps that rewrite a packet read as `events`: every event is kept
/// except that each `Description` element is rebuilt with its `Rating`
/// attribute set to `rating` (or, when the packet has no rating yet, with
/// `xmp:Rating` added to the first one), and the text of a `Rating` element
/// is replaced by `rating`. Fails on broken XML, an unreadable attribute, an
/// unmatched end tag, or a packet with no place for the rating.
pub fn plan_xmp_rewrite(events: &Vec<XmlEvent>, missing: bool, rating: &String) -> (r: Result<Vec<RewriteStep>, String>)
    ensures
        match rewrite_plan(events@, missing, rating@) {
            Ok(s) => r matches Ok(v) && steps_view(v@) == s,
            Err(e) => r matches Err(m) && m@ == e,
        },
        r matches Ok(v) ==> keeps_read_events(steps_view(v@), events@),
{
    let mut depth: usize = 0;
    let mut rating_depth: Option<usize> = None;
    let mut text_written = false;
    let mut description_found = false;
    let mut rating_updated = false;
    let mut steps: Vec<RewriteStep> = Vec::new();
    let mut k: usize = 0;
    while k < events.len()
        invariant
            k <= events@.len(),
            depth <= k,
            ({
                let s = rewrite_events(events@, k as nat, missing, rating@);
                &&& s.outcome is None
                &&& s.depth == depth
                &&& s.rating_depth == opt_depth(rating_depth)
                &&& s.text_written == text_written
                &&& s.description_found == description_found
                &&& s.rating_updated == rating_updated
                &&& s.steps == steps_view(steps@)
            }),
        decreases events@.len() - k,
    {
        let ghost before = rewrite_events(events@, k as nat, missing, rating@);
        let ghost after = rewrite_event(before, events@[k as int], k as int, missing, rating@);
        assert(rewrite_events(events@, (k + 1) as nat, missing, rating@) == after);
        let in_rating = match rating_depth {
            Some(d) => d == depth,
            None => false,
        };
        match &events[k] {
            XmlEvent::Start(e) => {
                depth = depth + 1;
                if is_description(&e.local) {
                    match rewrite_description(e, rating, missing && !rating_updated) {
                        Err(m) => {
                            proof {
                                lemma_rewrite_outcome_stays(events@, (k + 1) as nat, events@.len(), missing, rating@);
                            }
                            return Err(m);
                        },
                        Ok((attributes, replaced)) => {
                            description_found = true;
                            rating_updated = rating_updated || replaced;
                            steps.push(RewriteStep::Element { empty: false, name: e.name.clone(), attributes });
                        },
                    }
                } else {
                    if is_name(&e.local, 82, 97, 116, 105, 110, 103) {
                        rating_depth = Some(depth);
                        text_written = false;
                        rating_updated = true;
                    }
                    steps.push(RewriteStep::Keep(k));
                }
            },
            XmlEvent::Empty(e) => {
                if is_description(&e.local) {
                    match rewrite_description(e, rating, missing && !rating_updated) {
                        Err(m) => {
                            proof {
                                lemma_rewrite_outcome_stays(events@, (k + 1) as nat, events@.len(), missing, rating@);
                            }
                            return Err(m);
                        },
                        Ok((attributes, replaced)) => {
                            description_found = true;
                            rating_updated = rating_updated || replaced;
                            steps.push(RewriteStep::Element { empty: true, name: e.name.clone(), attributes });
                        },
                    }
                } else {
                    steps.push(RewriteStep::Keep(k));
                }
            },
            XmlEvent::Text(_) => {
                if in_rating {
                    if !text_written {
                        steps.push(RewriteStep::RatingText);
                        text_written = true;
                    }
                } else {
                    steps.push(RewriteStep::Keep(k));
                }
            },
            XmlEvent::End(local) => {
                if is_name(local, 82, 97, 116, 105, 110, 103) && in_rating {
                    if !text_written {
                        steps.push(RewriteStep::RatingText);
                    }
                    rating_depth = None;
                }
                steps.push(RewriteStep::Keep(k));
                if depth == 0 {
                    proof {
                        lemma_rewrite_outcome_stays(events@, (k + 1) as nat, events@.len(), missing, rating@);
                    }
                    return Err("XMP XML 结束标签无效".to_owned());
                }
                depth = depth - 1;
            },
            XmlEvent::Eof => {
                proof {
                    lemma_rewrite_outcome_stays(events@, (k + 1) as nat, events@.len(), missing, rating@);
                    lemma_keeps_read_events(events@, events@.len(), missing, rating@);
                }
                return finish_plan(description_found, rating_updated, steps);
            },
            XmlEvent::Other => {
                steps.push(RewriteStep::Keep(k));
            },
            XmlEvent::Error(e) => {
                proof {
                    lemma_rewrite_outcome_stays(events@, (k + 1) as nat, events@.len(), missing, rating@);
                }
                return Err(concat("XMP XML 无效：", e.as_str()));
            },
        }
        assert(steps_view(steps@) =~= after.steps);
        k = k + 1;
    }
    proof {
        lemma_keeps_read_events(events@, events@.len(), missing, rating@);
    }
    finish_plan(description_found, rating_updated, steps)
}

// ---------------------------------------------------------------------------
// Rewriting a packet
// ---------------------------------------------------------------------------
/// Most bytes an XMP packet may hold.
pub const MAX_XMP_BYTES: usize = 4194304;

/// The text of a new packet that holds only the rating.
pub open spec fn new_packet_text(rating: Seq<char>) -> Seq<char> {
    "<?xpacket begin=\"\" id=\"W5M0MpCehiHzreSzNTczkc9d\"?><x:xmpmeta xmlns:x=\"adobe:ns:meta/\"><rdf:RDF xmlns:rdf=\"http://www.w3.org/1999/02/22-rdf-syntax-ns#\"><rdf:Description xmlns:xmp=\"http://ns.adobe.com/xap/1.0/\" xmp:Rating=\""@
        + rating + "\"/></rdf:RDF></x:xmpmeta><?xpacket end=\"w\"?>"@
}

/// The bytes of an ASCII text.
pub open spec fn ascii_bytes(s: Seq<char>) -> Seq<u8> {
    s.map_values(|c: char| c as u8)
}

pub open spec fn result_view(r: Result<Vec<u8>, String>) -> Result<Seq<u8>, Seq<char>> {
    match r {
        Ok(v) => Ok(v@),
        Err(e) => Err(e@),
    }
}

/// A new packet for `rating`, kept only when reading it back (as `check`)
/// gives that rating.
pub open spec fn new_packet_result(rating: u8) -> Result<Seq<u8>, Seq<char>> {
    let bytes = ascii_bytes(new_packet_text(decimal_text(rating as nat)));
    if bytes.len() > MAX_XMP_BYTES {
        Err("无法生成有效的 XMP 评分"@)
    } else {
        match packet_rating(bytes) {
            Err(e) => Err(e),
            Ok(v) => if v == Some(rating as int) {
                Ok(bytes)
            } else {
                Err("无法生成有效的 XMP 评分"@)
            },
        }
    }
}

/// The reads of the rewriting reader over a packet, each with the bytes the
/// writer gives for it, from the `k`-th read on: at most `left` of them, up
/// to and including the first that ends reading.
pub open spec fn raw_reads_from(input: Seq<u8>, k: nat, left: nat) -> Seq<(XmlEvent, Seq<u8>)>
    decreases left,
{
    if left == 0 {
        Seq::empty()
    } else if ends_reading(raw_read_at(input, k).0) || left == 1 {
        seq![raw_read_at(input, k)]
    } else {
        seq![raw_read_at(input, k)] + raw_reads_from(input, k + 1, (left - 1) as nat)
    }
}

/// The reads that the rewrite makes of a packet: up to the end of input or
/// the first error, and at most one more than the packet has bytes.
pub open spec fn raw_reads(input: Seq<u8>) -> Seq<(XmlEvent, Seq<u8>)> {
    raw_reads_from(input, 0, input.len() + 1)
}

/// The packet as the rewriting reader sees it.
pub open spec fn raw_events(input: Seq<u8>) -> Seq<XmlEvent> {
    raw_reads(input).map_values(|p: (XmlEvent, Seq<u8>)| p.0)
}

/// The bytes the writer gives for one step, `kept` being the bytes it gives
/// for each event read.
pub open spec fn step_bytes(kept: Seq<Seq<u8>>, step: StepView, text: Seq<char>) -> Seq<u8> {
    match step {
        StepView::Keep(k) => kept[k],
        StepView::Element { empty, name, attributes } => xml_tag_bytes(name, attributes, empty),
        StepView::RatingText => xml_text_bytes(text),
    }
}

/// The bytes the writer gives for the steps in order.
pub open spec fn steps_bytes(kept: Seq<Seq<u8>>, steps: Seq<StepView>, text: Seq<char>) -> Seq<u8>
    decreases steps.len(),
{
    if steps.len() == 0 {
        Seq::empty()
    } else {
        steps_bytes(kept, steps.drop_last(), text) + step_bytes(kept, steps.last(), text)
    }
}

/// The bytes the writer gives for each read.
pub open spec fn read_bytes<E>(reads: Seq<(E, Seq<u8>)>) -> Seq<Seq<u8>> {
    reads.map_values(|p: (E, Seq<u8>)| p.1)
}

/// The steps that rewrite a packet to `rating`, or why there are none.
pub open spec fn rewrite_steps(input: Seq<u8>, rating: u8) -> Result<Seq<StepView>, Seq<char>> {
    rewrite_plan(raw_events(input), packet_rating(input) == Ok::<Option<int>, Seq<char>>(None), decimal_text(rating as nat))
}

/// The bytes that writing the steps gives when every write succeeds.
pub open spec fn planned_bytes(input: Seq<u8>, rating: u8) -> Seq<u8> {
    match rewrite_steps(input, rating) {
        Ok(steps) => steps_bytes(read_bytes(raw_reads(input)), steps, decimal_text(rating as nat)),
        Err(_) => Seq::empty(),
    }
}

/// The outcome of rewriting `input` when writing the steps gives `written`
/// (the bytes, or the writer's error): the packet is read by `xmp_rating`,
/// rewritten by the steps of `rewrite_plan`, and the written bytes are read
/// back by `xmp_rating`.
pub open spec fn rewrite_result(input: Seq<u8>, rating: u8, written: Result<Seq<u8>, Seq<char>>) -> Result<Seq<u8>, Seq<char>> {
    if input.len() > MAX_XMP_BYTES {
        Err("XMP 数据超过 4 MiB 限制"@)
    } else {
        match packet_rating(input) {
            Err(e) => Err(e),
            Ok(current) => if current == Some(-1int) {
                Err("XMP 包含暂不支持的拒绝评分 -1"@)
            } else {
                match rewrite_steps(input, rating) {
                    Err(e) => Err(e),
                    Ok(_) => match written {
                        Err(e) => Err(e),
                        Ok(out) => if out.len() > MAX_XMP_BYTES {
                            Err("更新后的 XMP 超过 4 MiB 限制"@)
                        } else {
                            match packet_rating(out) {
                                Err(e) => Err(e),
                                Ok(v) => if v == Some(rating as int) {
                                    Ok(out)
                                } else {
                                    Err("更新后的 XMP 评分校验失败"@)
                                },
                            }
                        },
                    },
                }
            },
        }
    }
}

fn push_ascii(out: &mut Vec<u8>, text: &str)
    ensures
        final(out)@ == old(out)@ + ascii_bytes(text@),
{
    let v = chars_of(text);
    let mut i: usize = 0;
    while i < v.len()
        invariant
            i <= v@.len(),
            v@ == text@,
            out@ == old(out)@ + ascii_bytes(v@.subrange(0, i as int)),
        decreases v@.len() - i,
    {
        let c = v[i];
        out.push(c as u8);
        i = i + 1;
        assert(ascii_bytes(v@.subrange(0, i as int)) =~= ascii_bytes(v@.subrange(0, i - 1)).push(c as u8));
    }
    assert(v@.subrange(0, v@.len() as int) =~= v@);
}

/// A new packet holding only `rating`, checked by reading it back.
fn new_rating_packet(rating: u8, text: &String) -> (r: Result<Vec<u8>, String>)
    requires
        rating <= 5,
        text@ == decimal_text(rating as nat),
    ensures
        new_packet_result(rating) == result_view(r),
{
    let mut out: Vec<u8> = Vec::new();
    push_ascii(&mut out, "<?xpacket begin=\"\" id=\"W5M0MpCehiHzreSzNTczkc9d\"?><x:xmpmeta xmlns:x=\"adobe:ns:meta/\"><rdf:RDF xmlns:rdf=\"http://www.w3.org/1999/02/22-rdf-syntax-ns#\"><rdf:Description xmlns:xmp=\"http://ns.adobe.com/xap/1.0/\" xmp:Rating=\"");
    push_ascii(&mut out, text.as_str());
    push_ascii(&mut out, "\"/></rdf:RDF></x:xmpmeta><?xpacket end=\"w\"?>");
    let ghost bytes = ascii_bytes(new_packet_text(decimal_text(rating as nat)));
    assert(out@ =~= bytes);
    if out.len() > MAX_XMP_BYTES {
        return Err("无法生成有效的 XMP 评分".to_owned());
    }
    match xmp_rating(out.as_slice()) {
        Err(e) => Err(e),
        Ok(v) => {
            let good = match v {
                Some(x) => x == rating as i8,
                None => false,
            };
            if good {
                Ok(out)
            } else {
                Err("无法生成有效的 XMP 评分".to_owned())
            }
        },
    }
}

/// A rebuilt element: its name, then each attribute in order, written as an
/// empty element or a start tag. The write succeeds; a writer that does not
/// indent then holds what it held before followed by that tag's bytes;
/// whether it indents stays as it was.
pub(crate) fn write_rebuilt_element(writer: &mut quick_xml::Writer<Vec<u8>>, empty: bool, name: &String, attributes: &Vec<(String, String)>) -> (r: Result<(), String>)
    ensures
        writer_indents(*final(writer)) == writer_indents(*old(writer)),
        r is Ok,
        !writer_indents(*old(writer)) ==> writer_bytes(*final(writer)) == writer_bytes(*old(writer)) + xml_tag_bytes(name@, pairs_view(attributes@), empty),
{
    if empty {
        write_empty_element(writer, name.as_str(), attributes)
    } else {
        write_start_element(writer, name.as_str(), attributes)
    }
}

/// Writes a star rating (0 to 5) into an XMP packet. Without a packet, a
/// new one holding only the rating is made. Otherwise the packet is read as
/// XML and written back through the steps of `plan_xmp_rewrite`; a packet
/// marked rejected (-1), over 4 MiB, or whose rewritten form does not read
/// back as the new rating is refused. The reader yields at most one event per
/// input byte before its end; reading stops there.
pub fn rewrite_xmp_rating(input: Option<&[u8]>, rating: u8) -> (r: Result<Vec<u8>, String>)
    ensures
        rating > 5 ==> (r matches Err(e) && e@ == "照片评分必须在 0 到 5 星之间"@),
        rating <= 5 && input is None ==> result_view(r) == new_packet_result(rating),
        rating <= 5 && input is Some ==> result_view(r) == rewrite_result(input->0@, rating, Ok(planned_bytes(input->0@, rating))),
{
    if rating > 5 {
        return Err("照片评分必须在 0 到 5 星之间".to_owned());
    }
    let text = decimal(rating as u64);
    let packet = match input {
        None => {
            return new_rating_packet(rating, &text);
        },
        Some(b) => b,
    };
    if packet.len() > MAX_XMP_BYTES {
        return Err("XMP 数据超过 4 MiB 限制".to_owned());
    }
    let current = match xmp_rating(packet) {
        Err(e) => return Err(e),
        Ok(c) => c,
    };
    let missing = match current {
        Some(x) => {
            if x == -1 {
                return Err("XMP 包含暂不支持的拒绝评分 -1".to_owned());
            }
            false
        },
        None => true,
    };
    assert(missing == (packet_rating(packet@) == Ok::<Option<int>, Seq<char>>(None)));
    let mut reader = open_raw_xml(packet);
    let mut views: Vec<XmlEvent> = Vec::new();
    let mut raws: Vec<Option<quick_xml::events::Event>> = Vec::new();
    let ghost mut got: Seq<(XmlEvent, Seq<u8>)> = Seq::empty();
    let mut budget: usize = packet.len();
    loop
        invariant_except_break
            budget <= packet@.len(),
            got.len() + budget == packet@.len(),
            forall|j: nat| #[trigger] raw_reader_read_at(reader, j) == raw_read_at(packet@, got.len() + j),
            got + raw_reads_from(packet@, got.len() as nat, (budget + 1) as nat) == raw_reads(packet@),
        invariant
            raws@.len() == views@.len(),
            views@.len() == got.len(),
            views@ == got.map_values(|p: (XmlEvent, Seq<u8>)| p.0),
            forall|i: int| 0 <= i < views@.len() ==> ((#[trigger] raws@[i]) is None <==> views@[i] is Error),
            forall|i: int| 0 <= i < raws@.len() ==> (#[trigger] raws@[i] matches Some(e) ==> event_bytes(e) == got[i].1),
        ensures
            got == raw_reads(packet@),
        decreases budget,
    {
        let ghost k = got.len() as nat;
        let ghost r0 = reader;
        let (event, view) = read_raw_view(&mut reader);
        assert(raw_reader_read_at(r0, 0) == raw_read_at(packet@, k + 0));
        let done = match &view {
            XmlEvent::Eof => true,
            XmlEvent::Error(_) => true,
            _ => false,
        };
        let ghost before = got;
        proof {
            got = got.push(raw_read_at(packet@, k));
        }
        views.push(view);
        raws.push(event);
        assert(views@ =~= got.map_values(|p: (XmlEvent, Seq<u8>)| p.0));
        if done || budget == 0 {
            assert(got == raw_reads(packet@)) by {
                assert(raw_reads_from(packet@, k, (budget + 1) as nat) == seq![raw_read_at(packet@, k)]);
                assert(before + seq![raw_read_at(packet@, k)] =~= got);
            }
            break;
        }
        budget = budget - 1;
        assert(raw_reads_from(packet@, k, (budget + 2) as nat) == seq![raw_read_at(packet@, k)] + raw_reads_from(packet@, k + 1, (budget + 1) as nat));
        assert(before + (seq![raw_read_at(packet@, k)] + raw_reads_from(packet@, k + 1, (budget + 1) as nat))
            =~= got + raw_reads_from(packet@, k + 1, (budget + 1) as nat));
        assert forall|j: nat| #[trigger] raw_reader_read_at(reader, j) == raw_read_at(packet@, got.len() + j) by {
            assert(raw_reader_read_at(reader, j) == raw_reader_read_at(r0, j + 1));
            assert(raw_reader_read_at(r0, j + 1) == raw_read_at(packet@, k + (j + 1)));
        }
    }
    assert(views@ == raw_events(packet@));
    let steps = match plan_xmp_rewrite(&views, missing, &text) {
        Err(e) => return Err(e),
        Ok(s) => s,
    };
    let ghost planned = steps_view(steps@);
    assert(rewrite_steps(packet@, rating) == Ok::<Seq<StepView>, Seq<char>>(planned));
    let mut writer = new_xml_writer(packet.len() + 32);
    let mut j: usize = 0;
    while j < steps.len()
        invariant
            j <= steps@.len(),
            planned == steps_view(steps@),
            text@ == decimal_text(rating as nat),
            rating <= 5,
            input == Some(packet),
            keeps_read_events(planned, views@),
            raws@.len() == views@.len(),
            views@.len() == got.len(),
            forall|i: int| 0 <= i < views@.len() ==> ((#[trigger] raws@[i]) is None <==> views@[i] is Error),
            forall|i: int| 0 <= i < raws@.len() ==> (#[trigger] raws@[i] matches Some(e) ==> event_bytes(e) == got[i].1),
            !writer_indents(writer),
            writer_bytes(writer) == steps_bytes(read_bytes(got), planned.subrange(0, j as int), text@),
        decreases steps@.len() - j,
    {
        let ghost w0 = writer;
        assert(planned[j as int] == steps@[j as int].view());
        assert(planned.subrange(0, j + 1).drop_last() =~= planned.subrange(0, j as int));
        let failure = match &steps[j] {
            RewriteStep::Keep(k) => {
                match &raws[*k] {
                    Some(e) => match write_kept_event(&mut writer, e) {
                        Ok(()) => None,
                        Err(x) => Some(concat("无法写入 XMP：", x.as_str())),
                    },
                    None => {
                        assert(false);
                        None
                    },
                }
            },
            RewriteStep::Element { empty, name, attributes } => match write_rebuilt_element(&mut writer, *empty, name, attributes) {
                Ok(()) => None,
                Err(x) => Some(concat("无法写入 XMP：", x.as_str())),
            },
            RewriteStep::RatingText => match write_xml_text(&mut writer, text.as_str()) {
                Ok(()) => None,
                Err(x) => Some(concat("无法写入 XMP Rating：", x.as_str())),
            },
        };
        if let Some(m) = failure {
            return Err(m);
        }
        j = j + 1;
    }
    assert(planned.subrange(0, planned.len() as int) =~= planned);
    let out = written_bytes(writer);
    assert(out@ == planned_bytes(packet@, rating));
    if out.len() > MAX_XMP_BYTES {
        return Err("更新后的 XMP 超过 4 MiB 限制".to_owned());
    }
    match xmp_rating(out.as_slice()) {
        Err(e) => Err(e),
        Ok(v) => {
            let good = match v {
                Some(x) => x == rating as i8,
                None => false,
            };
            if good {
                Ok(out)
            } else {
                Err("更新后的 XMP 评分校验失败".to_owned())
            }
        },
    }
}

} // verus!
