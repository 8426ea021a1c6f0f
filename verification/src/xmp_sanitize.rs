//! Cleaning an XMP packet kept from a source photo before it goes into an
//! exported image: elements and attributes that describe the source's pixel
//! size or orientation are dropped, since the export changes both.
//!
//! quick_xml reads and writes the XML; what is kept and how each element is
//! rebuilt is decided here by `plan_xmp_sanitize`.

use vstd::prelude::*;
use quick_xml::events::Event;
use vstd::utf8::{decode_utf8, valid_utf8};
use crate::jpeg::MAX_JPEG_SIDECAR_BYTES;
use crate::text::concat;
use crate::xmp_rewrite::{
    event_bytes, new_xml_writer, pairs_view, read_bytes, result_view, steps_bytes, writer_bytes, writer_indents, steps_view, write_kept_event, write_rebuilt_element,
    written_bytes, RewriteStep, StepView,
};

verus! {

/// An element as read for cleaning: its raw qualified name and its
/// attributes as raw key and raw (still escaped) value bytes, or the
/// attribute error text.
#[derive(Debug)]
pub struct RawElement {
    pub name: Vec<u8>,
    pub attributes: Vec<Result<(Vec<u8>, Vec<u8>), String>>,
}

/// An event of the reader, as needed for cleaning.
#[derive(Debug)]
pub enum RawXmlEvent {
    Start(RawElement),
    Empty(RawElement),
    End,
    DocType,
    Eof,
    /// Text, comments, declarations and the other kinds.
    Other,
    /// The reader's error text.
    Error(String),
}

/// `str::from_utf8`, the text owned.
#[verifier::external_body]
fn utf8_text(bytes: &[u8]) -> (r: Option<String>)
    ensures
        r is Some <==> valid_utf8(bytes@),
        r matches Some(s) ==> s@ == decode_utf8(bytes@),
{
    std::str::from_utf8(bytes).ok().map(|s| s.to_owned())
}

/// The event, as needed for cleaning, that the `k`-th read (counting from
/// 0) of a reader made by `open_checked_xml` over the text yields (a read
/// error as its text), with the bytes that `Writer::write_event` writes for
/// that event to a writer that does not indent (for a read error these bytes
/// are not used). quick_xml's reading and writing depend on these values
/// alone.
pub uninterp spec fn checked_read_at(text: Seq<char>, k: nat) -> (RawXmlEvent, Seq<u8>);

/// The same for the `k`-th further read (counting from 0) of a reader in
/// this state.
pub uninterp spec fn checked_reader_read_at(reader: quick_xml::Reader<&[u8]>, k: nat) -> (RawXmlEvent, Seq<u8>);

/// `Reader::from_str` with `check_end_names` on: its reads are those of a
/// fresh reader so made over the text.
#[verifier::external_body]
fn open_checked_xml(text: &str) -> (r: quick_xml::Reader<&[u8]>)
    ensures
        forall|k: nat| #[trigger] checked_reader_read_at(r, k) == checked_read_at(text@, k),
{
    let mut reader = quick_xml::Reader::from_str(text);
    reader.config_mut().check_end_names = true;
    reader
}

/// `BytesStart::name` and `attributes().with_checks(true)`, each attribute
/// as its raw key and value bytes; an attribute error becomes its text.
#[verifier::external_body]
fn raw_element(e: &quick_xml::events::BytesStart) -> RawElement {
    RawElement {
        name: e.name().as_ref().to_vec(),
        attributes: e.attributes().with_checks(true).map(|a| a.map(|a| (a.key.as_ref().to_vec(), a.value.to_vec())).map_err(|x| x.to_string())).collect(),
    }
}

/// `Reader::read_event`: the event, and the event as needed for cleaning
/// (its kind, elements by `raw_element`); a read error gives no event and
/// its text. The reader then stands one read further on.
#[verifier::external_body]
fn read_checked_view<'a>(reader: &mut quick_xml::Reader<&'a [u8]>) -> (r: (Option<Event<'a>>, RawXmlEvent))
    ensures
        r.1 == checked_reader_read_at(*old(reader), 0).0,
        r.0 is None <==> r.1 is Error,
        r.0 matches Some(e) ==> event_bytes(e) == checked_reader_read_at(*old(reader), 0).1,
        forall|k: nat| #[trigger] checked_reader_read_at(*final(reader), k) == checked_reader_read_at(*old(reader), k + 1),
{
    let event = match reader.read_event() {
        Ok(event) => event,
        Err(x) => return (None, RawXmlEvent::Error(x.to_string())),
    };
    let view = match &event {
        Event::Start(e) => RawXmlEvent::Start(raw_element(e)),
        Event::Empty(e) => RawXmlEvent::Empty(raw_element(e)),
        Event::End(_) => RawXmlEvent::End,
        Event::DocType(_) => RawXmlEvent::DocType,
        Event::Eof => RawXmlEvent::Eof,
        _ => RawXmlEvent::Other,
    };
    (Some(event), view)
}

// ---------------------------------------------------------------------------
// What is stale
// ---------------------------------------------------------------------------
pub open spec fn last_colon(name: Seq<u8>, n: nat) -> int
    decreases n,
{
    if n == 0 {
        -1
    } else if name[n - 1] == 58u8 {
        n - 1
    } else {
        last_colon(name, (n - 1) as nat)
    }
}

/// The part of a qualified name after its last colon.
pub open spec fn local_part(name: Seq<u8>) -> Seq<u8> {
    name.subrange(last_colon(name, name.len()) + 1, name.len() as int)
}

pub open spec fn ascii(s: Seq<char>) -> Seq<u8> {
    s.map_values(|c: char| c as u8)
}

/// Names that describe the source image's size or orientation.
pub open spec fn is_stale_local(local: Seq<u8>) -> bool {
    ||| local == ascii("ImageWidth"@)
    ||| local == ascii("ImageLength"@)
    ||| local == ascii("Orientation"@)
    ||| local == ascii("PixelXDimension"@)
    ||| local == ascii("PixelYDimension"@)
    ||| local == ascii("ExifImageWidth"@)
    ||| local == ascii("ExifImageHeight"@)
}

pub open spec fn is_stale_name(name: Seq<u8>) -> bool {
    is_stale_local(local_part(name))
}

proof fn lemma_last_colon(name: Seq<u8>, n: nat)
    requires
        n <= name.len(),
    ensures
        -1 <= last_colon(name, n) < n,
        last_colon(name, n) >= 0 ==> name[last_colon(name, n)] == 58u8,
        forall|k: int| last_colon(name, n) < k < n ==> name[k] != 58u8,
    decreases n,
{
    if n > 0 {
        lemma_last_colon(name, (n - 1) as nat);
    }
}

fn ascii_bytes_of(text: &str) -> (r: Vec<u8>)
    ensures
        r@ == ascii(text@),
{
    let v = crate::text::chars_of(text);
    let mut out: Vec<u8> = Vec::new();
    let mut i: usize = 0;
    while i < v.len()
        invariant
            i <= v@.len(),
            v@ == text@,
            out@ == ascii(v@.subrange(0, i as int)),
        decreases v@.len() - i,
    {
        out.push(v[i] as u8);
        i = i + 1;
        assert(out@ =~= ascii(v@.subrange(0, i as int)));
    }
    assert(v@.subrange(0, v@.len() as int) =~= v@);
    out
}

fn bytes_equal(a: &[u8], lo: usize, b: &Vec<u8>) -> (r: bool)
    requires
        lo <= a@.len(),
    ensures
        r == (a@.subrange(lo as int, a@.len() as int) == b@),
{
    if a.len() - lo != b.len() {
        return false;
    }
    let mut i: usize = 0;
    while i < b.len()
        invariant
            i <= b@.len(),
            lo <= a@.len(),
            a@.len() - lo == b@.len(),
            a@.len() <= usize::MAX,
            forall|k: int| 0 <= k < i ==> a@[lo + k] == b@[k],
        decreases b@.len() - i,
    {
        if a[lo + i] != b[i] {
            assert(a@.subrange(lo as int, a@.len() as int)[i as int] != b@[i as int]);
            return false;
        }
        i = i + 1;
    }
    assert(a@.subrange(lo as int, a@.len() as int) =~= b@);
    true
}

/// Whether a qualified name is one of the stale ones.
pub fn is_stale_xmp_name(name: &[u8]) -> (r: bool)
    ensures
        r == is_stale_name(name@),
{
    let mut n: usize = name.len();
    while n > 0
        invariant
            n <= name@.len(),
            last_colon(name@, name@.len()) == last_colon(name@, n as nat),
        ensures
            n <= name@.len(),
            last_colon(name@, name@.len()) == last_colon(name@, n as nat),
            n == 0 || name@[n - 1] == 58u8,
        decreases n,
    {
        if name[n - 1] == 58 {
            break;
        }
        n = n - 1;
    }
    proof {
        lemma_last_colon(name@, name@.len());
    }
    let lo = n;
    assert(last_colon(name@, name@.len()) + 1 == lo) by {
        if n > 0 {
            assert(name@[n - 1] == 58u8);
        }
    }
    bytes_equal(name, lo, &ascii_bytes_of("ImageWidth")) || bytes_equal(name, lo, &ascii_bytes_of("ImageLength"))
        || bytes_equal(name, lo, &ascii_bytes_of("Orientation")) || bytes_equal(name, lo, &ascii_bytes_of("PixelXDimension"))
        || bytes_equal(name, lo, &ascii_bytes_of("PixelYDimension")) || bytes_equal(name, lo, &ascii_bytes_of("ExifImageWidth"))
        || bytes_equal(name, lo, &ascii_bytes_of("ExifImageHeight"))
}

// ---------------------------------------------------------------------------
// The cleaning plan
// ---------------------------------------------------------------------------
/// The first `n` attributes of an element with the stale ones dropped and
/// the rest as text, or the first that is broken or not UTF-8.
pub open spec fn cleaned_attributes(attrs: Seq<Result<(Vec<u8>, Vec<u8>), String>>, n: nat) -> Result<Seq<(Seq<char>, Seq<char>)>, Seq<char>>
    decreases n,
{
    if n == 0 {
        Ok(seq![])
    } else {
        match cleaned_attributes(attrs, (n - 1) as nat) {
            Err(e) => Err(e),
            Ok(done) => match attrs[n - 1] {
                Err(e) => Err("XMP 属性无效："@ + e@),
                Ok(kv) => if is_stale_name(kv.0@) {
                    Ok(done)
                } else if !valid_utf8(kv.0@) {
                    Err("XMP 属性名不是有效的 UTF-8"@)
                } else if !valid_utf8(kv.1@) {
                    Err("XMP 属性值不是有效的 UTF-8"@)
                } else {
                    Ok(done.push((decode_utf8(kv.0@), decode_utf8(kv.1@))))
                },
            },
        }
    }
}

/// An element's name and cleaned attributes.
pub open spec fn cleaned_element(e: RawElement) -> Result<(Seq<char>, Seq<(Seq<char>, Seq<char>)>), Seq<char>> {
    if !valid_utf8(e.name@) {
        Err("XMP 元素名不是有效的 UTF-8"@)
    } else {
        match cleaned_attributes(e.attributes@, e.attributes@.len()) {
            Err(x) => Err(x),
            Ok(a) => Ok((decode_utf8(e.name@), a)),
        }
    }
}

/// Where cleaning stands: the depth inside a dropped element, the steps so
/// far, and the outcome once decided.
pub struct SanitizeState {
    pub skipped: nat,
    pub steps: Seq<StepView>,
    pub outcome: Option<Result<(), Seq<char>>>,
}

pub open spec fn sanitize_failed(s: SanitizeState, e: Seq<char>) -> SanitizeState {
    SanitizeState { outcome: Some(Err(e)), ..s }
}

pub open spec fn element_kept(s: SanitizeState, e: RawElement, empty: bool) -> SanitizeState {
    match cleaned_element(e) {
        Err(m) => sanitize_failed(s, m),
        Ok(c) => SanitizeState { steps: s.steps.push(StepView::Element { empty, name: c.0, attributes: c.1 }), ..s },
    }
}

/// One event, read at position `k`.
pub open spec fn sanitize_event(s: SanitizeState, event: RawXmlEvent, k: int) -> SanitizeState {
    match event {
        RawXmlEvent::Eof => SanitizeState { outcome: Some(Ok(())), ..s },
        RawXmlEvent::DocType => sanitize_failed(s, "XMP 不允许包含文档类型声明"@),
        RawXmlEvent::Start(e) => if s.skipped > 0 {
            SanitizeState { skipped: s.skipped + 1, ..s }
        } else if is_stale_name(e.name@) {
            SanitizeState { skipped: 1, ..s }
        } else {
            element_kept(s, e, false)
        },
        RawXmlEvent::Empty(e) => if s.skipped == 0 && !is_stale_name(e.name@) {
            element_kept(s, e, true)
        } else {
            s
        },
        RawXmlEvent::End => if s.skipped > 0 {
            SanitizeState { skipped: (s.skipped - 1) as nat, ..s }
        } else {
            SanitizeState { steps: s.steps.push(StepView::Keep(k)), ..s }
        },
        RawXmlEvent::Other => if s.skipped == 0 {
            SanitizeState { steps: s.steps.push(StepView::Keep(k)), ..s }
        } else {
            s
        },
        RawXmlEvent::Error(e) => sanitize_failed(s, "XMP 解析失败："@ + e@),
    }
}

pub open spec fn sanitize_events(events: Seq<RawXmlEvent>, n: nat) -> SanitizeState
    decreases n,
{
    if n == 0 {
        SanitizeState { skipped: 0, steps: seq![], outcome: None }
    } else {
        let r = sanitize_events(events, (n - 1) as nat);
        if r.outcome is Some {
            r
        } else {
            sanitize_event(r, events[n - 1], n - 1)
        }
    }
}

/// The steps that write a cleaned packet read as `events`, or why it
/// cannot be cleaned.
pub open spec fn sanitize_plan(events: Seq<RawXmlEvent>) -> Result<Seq<StepView>, Seq<char>> {
    match sanitize_events(events, events.len()).outcome {
        Some(Err(e)) => Err(e),
        _ => Ok(sanitize_events(events, events.len()).steps),
    }
}

/// Every kept step names an event that is neither the end nor an error.
pub open spec fn keeps_plain_events(steps: Seq<StepView>, events: Seq<RawXmlEvent>) -> bool {
    forall|i: int| 0 <= i < steps.len() ==> (#[trigger] steps[i] matches StepView::Keep(k) ==> 0 <= k < events.len()
        && !(events[k] is Eof) && !(events[k] is Error)) && !(steps[i] is RatingText)
}

proof fn lemma_sanitize_outcome_stays(events: Seq<RawXmlEvent>, n: nat, m: nat)
    requires
        n <= m,
        sanitize_events(events, n).outcome is Some,
    ensures
        sanitize_events(events, m) == sanitize_events(events, n),
    decreases m,
{
    if n < m {
        lemma_sanitize_outcome_stays(events, n, (m - 1) as nat);
    }
}

proof fn lemma_sanitize_keeps(events: Seq<RawXmlEvent>, n: nat)
    requires
        n <= events.len(),
    ensures
        keeps_plain_events(sanitize_events(events, n).steps, events),
    decreases n,
{
    if n > 0 {
        lemma_sanitize_keeps(events, (n - 1) as nat);
        let r = sanitize_events(events, (n - 1) as nat);
        let t = sanitize_events(events, n);
        assert forall|i: int| 0 <= i < t.steps.len() implies (#[trigger] t.steps[i] matches StepView::Keep(k) ==> 0 <= k
            < events.len() && !(events[k] is Eof) && !(events[k] is Error)) && !(t.steps[i] is RatingText) by {
            if i < r.steps.len() {
                assert(t.steps[i] == r.steps[i]);
            }
        }
    }
}

fn clean_attributes(attrs: &Vec<Result<(Vec<u8>, Vec<u8>), String>>) -> (r: Result<Vec<(String, String)>, String>)
    ensures
        match cleaned_attributes(attrs@, attrs@.len()) {
            Ok(a) => r matches Ok(v) && pairs_view(v@) == a,
            Err(e) => r matches Err(m) && m@ == e,
        },
{
    let mut out: Vec<(String, String)> = Vec::new();
    let mut i: usize = 0;
    while i < attrs.len()
        invariant
            i <= attrs@.len(),
            cleaned_attributes(attrs@, i as nat) matches Ok(a) && pairs_view(out@) == a,
        decreases attrs@.len() - i,
    {
        match &attrs[i] {
            Err(e) => {
                proof {
                    lemma_cleaned_error_stays(attrs@, (i + 1) as nat, attrs@.len());
                }
                return Err(concat("XMP 属性无效：", e.as_str()));
            },
            Ok((key, value)) => {
                if !is_stale_xmp_name(key.as_slice()) {
                    let k = match utf8_text(key.as_slice()) {
                        Some(k) => k,
                        None => {
                            proof {
                                lemma_cleaned_error_stays(attrs@, (i + 1) as nat, attrs@.len());
                            }
                            return Err("XMP 属性名不是有效的 UTF-8".to_owned());
                        },
                    };
                    let v = match utf8_text(value.as_slice()) {
                        Some(v) => v,
                        None => {
                            proof {
                                lemma_cleaned_error_stays(attrs@, (i + 1) as nat, attrs@.len());
                            }
                            return Err("XMP 属性值不是有效的 UTF-8".to_owned());
                        },
                    };
                    out.push((k, v));
                    proof {
                        assert(pairs_view(out@) =~= cleaned_attributes(attrs@, (i + 1) as nat)->Ok_0);
                    }
                }
            },
        }
        i = i + 1;
    }
    Ok(out)
}

proof fn lemma_cleaned_error_stays(attrs: Seq<Result<(Vec<u8>, Vec<u8>), String>>, n: nat, m: nat)
    requires
        n <= m,
        cleaned_attributes(attrs, n) is Err,
    ensures
        cleaned_attributes(attrs, m) == cleaned_attributes(attrs, n),
    decreases m,
{
    if n < m {
        lemma_cleaned_error_stays(attrs, n, (m - 1) as nat);
    }
}

fn clean_element(e: &RawElement) -> (r: Result<(String, Vec<(String, String)>), String>)
    ensures
        match cleaned_element(*e) {
            Ok(c) => r matches Ok(v) && v.0@ == c.0 && pairs_view(v.1@) == c.1,
            Err(m) => r matches Err(x) && x@ == m,
        },
{
    let name = match utf8_text(e.name.as_slice()) {
        Some(n) => n,
        None => {
            return Err("XMP 元素名不是有效的 UTF-8".to_owned());
        },
    };
    let attributes = clean_attributes(&e.attributes)?;
    Ok((name, attributes))
}

/// The steps that write a cleaned packet: every event is kept, except that
/// elements with a stale name are dropped with all they contain, the
/// remaining elements are rebuilt without stale attributes, and a document
/// type declaration, broken XML or text that is not UTF-8 fails.
pub fn plan_xmp_sanitize(events: &Vec<RawXmlEvent>) -> (r: Result<Vec<RewriteStep>, String>)
    ensures
        match sanitize_plan(events@) {
            Ok(s) => r matches Ok(v) && steps_view(v@) == s,
            Err(e) => r matches Err(m) && m@ == e,
        },
        r matches Ok(v) ==> keeps_plain_events(steps_view(v@), events@),
{
    let mut skipped: usize = 0;
    let mut steps: Vec<RewriteStep> = Vec::new();
    let mut k: usize = 0;
    while k < events.len()
        invariant
            k <= events@.len(),
            skipped <= k,
            ({
                let s = sanitize_events(events@, k as nat);
                &&& s.outcome is None
                &&& s.skipped == skipped
                &&& s.steps == steps_view(steps@)
            }),
        decreases events@.len() - k,
    {
        let ghost before = sanitize_events(events@, k as nat);
        let ghost after = sanitize_event(before, events@[k as int], k as int);
        assert(sanitize_events(events@, (k + 1) as nat) == after);
        match &events[k] {
            RawXmlEvent::Eof => {
                proof {
                    lemma_sanitize_outcome_stays(events@, (k + 1) as nat, events@.len());
                    lemma_sanitize_keeps(events@, events@.len());
                }
                return Ok(steps);
            },
            RawXmlEvent::DocType => {
                proof {
                    lemma_sanitize_outcome_stays(events@, (k + 1) as nat, events@.len());
                }
                return Err("XMP 不允许包含文档类型声明".to_owned());
            },
            RawXmlEvent::Start(e) => {
                if skipped > 0 {
                    skipped = skipped + 1;
                } else if is_stale_xmp_name(e.name.as_slice()) {
                    skipped = 1;
                } else {
                    match clean_element(e) {
                        Err(m) => {
                            proof {
                                lemma_sanitize_outcome_stays(events@, (k + 1) as nat, events@.len());
                            }
                            return Err(m);
                        },
                        Ok((name, attributes)) => {
                            steps.push(RewriteStep::Element { empty: false, name, attributes });
                        },
                    }
                }
            },
            RawXmlEvent::Empty(e) => {
                if skipped == 0 && !is_stale_xmp_name(e.name.as_slice()) {
                    match clean_element(e) {
                        Err(m) => {
                            proof {
                                lemma_sanitize_outcome_stays(events@, (k + 1) as nat, events@.len());
                            }
                            return Err(m);
                        },
                        Ok((name, attributes)) => {
                            steps.push(RewriteStep::Element { empty: true, name, attributes });
                        },
                    }
                }
            },
            RawXmlEvent::End => {
                if skipped > 0 {
                    skipped = skipped - 1;
                } else {
                    steps.push(RewriteStep::Keep(k));
                }
            },
            RawXmlEvent::Other => {
                if skipped == 0 {
                    steps.push(RewriteStep::Keep(k));
                }
            },
            RawXmlEvent::Error(e) => {
                proof {
                    lemma_sanitize_outcome_stays(events@, (k + 1) as nat, events@.len());
                }
                return Err(concat("XMP 解析失败：", e.as_str()));
            },
        }
        assert(steps_view(steps@) =~= after.steps);
        k = k + 1;
    }
    proof {
        lemma_sanitize_keeps(events@, events@.len());
    }
    Ok(steps)
}

/// The outcome of cleaning a packet read as `events`, `written` being what
/// the writer produced for the planned steps (or its error).
pub open spec fn sanitize_result(events: Seq<RawXmlEvent>, written: Result<Seq<u8>, Seq<char>>) -> Result<Seq<u8>, Seq<char>> {
    match sanitize_plan(events) {
        Err(e) => Err(e),
        Ok(_) => match written {
            Err(e) => Err(e),
            Ok(out) => if out.len() > MAX_JPEG_SIDECAR_BYTES {
                Err("处理后的 XMP 超过 4 MB 安全限制"@)
            } else {
                Ok(out)
            },
        },
    }
}

/// Whether reading stops after this event: the end of input or an error.
pub open spec fn ends_checked_reading(e: RawXmlEvent) -> bool {
    e is Eof || e is Error
}

/// The reads of the cleaning reader over a text, from the `k`-th read on: at
/// most `left` of them, up to and including the first that ends reading.
pub open spec fn checked_reads_from(text: Seq<char>, k: nat, left: nat) -> Seq<(RawXmlEvent, Seq<u8>)>
    decreases left,
{
    if left == 0 {
        Seq::empty()
    } else if ends_checked_reading(checked_read_at(text, k).0) || left == 1 {
        seq![checked_read_at(text, k)]
    } else {
        seq![checked_read_at(text, k)] + checked_reads_from(text, k + 1, (left - 1) as nat)
    }
}

/// The reads that cleaning makes of a UTF-8 packet: up to the end of input or
/// the first error, and at most one more than the packet has bytes.
pub open spec fn checked_reads(packet: Seq<u8>) -> Seq<(RawXmlEvent, Seq<u8>)> {
    checked_reads_from(decode_utf8(packet), 0, packet.len() + 1)
}

/// The packet as the cleaning reader sees it.
pub open spec fn checked_events(packet: Seq<u8>) -> Seq<RawXmlEvent> {
    checked_reads(packet).map_values(|p: (RawXmlEvent, Seq<u8>)| p.0)
}

/// The bytes that writing the cleaning steps gives when every write succeeds.
pub open spec fn cleaned_bytes(packet: Seq<u8>) -> Seq<u8> {
    match sanitize_plan(checked_events(packet)) {
        Ok(steps) => steps_bytes(read_bytes(checked_reads(packet)), steps, Seq::empty()),
        Err(_) => Seq::empty(),
    }
}

/// Cleans an XMP packet kept from a source photo (see `plan_xmp_sanitize`).
/// Packets over 4 MB or not UTF-8 are refused. The reader yields at most one
/// event per input byte before its end; reading stops there.
pub fn sanitize_preserved_xmp(packet: &[u8]) -> (r: Result<Vec<u8>, String>)
    ensures
        packet@.len() > MAX_JPEG_SIDECAR_BYTES ==> (r matches Err(e) && e@ == "XMP 元数据超过 4 MB 安全限制"@),
        packet@.len() <= MAX_JPEG_SIDECAR_BYTES && !valid_utf8(packet@) ==> (r matches Err(e) && e@ == "XMP 不是有效的 UTF-8"@),
        packet@.len() <= MAX_JPEG_SIDECAR_BYTES && valid_utf8(packet@) ==> result_view(r) == sanitize_result(checked_events(packet@), Ok(cleaned_bytes(packet@))),
{
    if packet.len() > MAX_JPEG_SIDECAR_BYTES {
        return Err("XMP 元数据超过 4 MB 安全限制".to_owned());
    }
    let text = match utf8_text(packet) {
        Some(t) => t,
        None => {
            return Err("XMP 不是有效的 UTF-8".to_owned());
        },
    };
    let ghost chars = decode_utf8(packet@);
    let mut reader = open_checked_xml(text.as_str());
    let mut views: Vec<RawXmlEvent> = Vec::new();
    let mut raws: Vec<Option<Event>> = Vec::new();
    let ghost mut got: Seq<(RawXmlEvent, Seq<u8>)> = Seq::empty();
    let mut budget: usize = packet.len();
    loop
        invariant_except_break
            budget <= packet@.len(),
            got.len() + budget == packet@.len(),
            forall|j: nat| #[trigger] checked_reader_read_at(reader, j) == checked_read_at(chars, got.len() + j),
            got + checked_reads_from(chars, got.len() as nat, (budget + 1) as nat) == checked_reads(packet@),
        invariant
            chars == decode_utf8(packet@),
            raws@.len() == views@.len(),
            views@.len() == got.len(),
            views@ == got.map_values(|p: (RawXmlEvent, Seq<u8>)| p.0),
            forall|i: int| 0 <= i < views@.len() ==> ((#[trigger] raws@[i]) is None <==> views@[i] is Error),
            forall|i: int| 0 <= i < raws@.len() ==> (#[trigger] raws@[i] matches Some(e) ==> event_bytes(e) == got[i].1),
        ensures
            got == checked_reads(packet@),
        decreases budget,
    {
        let ghost k = got.len() as nat;
        let ghost r0 = reader;
        let (event, view) = read_checked_view(&mut reader);
        assert(checked_reader_read_at(r0, 0) == checked_read_at(chars, k + 0));
        let done = match &view {
            RawXmlEvent::Eof => true,
            RawXmlEvent::Error(_) => true,
            _ => false,
        };
        let ghost before = got;
        proof {
            got = got.push(checked_read_at(chars, k));
        }
        views.push(view);
        raws.push(event);
        assert(views@ =~= got.map_values(|p: (RawXmlEvent, Seq<u8>)| p.0));
        if done || budget == 0 {
            assert(got == checked_reads(packet@)) by {
                assert(checked_reads_from(chars, k, (budget + 1) as nat) == seq![checked_read_at(chars, k)]);
                assert(before + seq![checked_read_at(chars, k)] =~= got);
            }
            break;
        }
        budget = budget - 1;
        assert(checked_reads_from(chars, k, (budget + 2) as nat) == seq![checked_read_at(chars, k)] + checked_reads_from(chars, k + 1, (budget + 1) as nat));
        assert(before + (seq![checked_read_at(chars, k)] + checked_reads_from(chars, k + 1, (budget + 1) as nat))
            =~= got + checked_reads_from(chars, k + 1, (budget + 1) as nat));
        assert forall|j: nat| #[trigger] checked_reader_read_at(reader, j) == checked_read_at(chars, got.len() + j) by {
            assert(checked_reader_read_at(reader, j) == checked_reader_read_at(r0, j + 1));
            assert(checked_reader_read_at(r0, j + 1) == checked_read_at(chars, k + (j + 1)));
        }
    }
    assert(views@ == checked_events(packet@));
    let steps = match plan_xmp_sanitize(&views) {
        Err(e) => return Err(e),
        Ok(s) => s,
    };
    let ghost planned = steps_view(steps@);
    assert(sanitize_plan(checked_events(packet@)) == Ok::<Seq<StepView>, Seq<char>>(planned));
    let mut writer = new_xml_writer(0);
    let mut j: usize = 0;
    while j < steps.len()
        invariant
            j <= steps@.len(),
            planned == steps_view(steps@),
            sanitize_plan(checked_events(packet@)) == Ok::<Seq<StepView>, Seq<char>>(planned),
            packet@.len() <= MAX_JPEG_SIDECAR_BYTES && valid_utf8(packet@),
            keeps_plain_events(planned, views@),
            raws@.len() == views@.len(),
            views@.len() == got.len(),
            forall|i: int| 0 <= i < views@.len() ==> ((#[trigger] raws@[i]) is None <==> views@[i] is Error),
            forall|i: int| 0 <= i < raws@.len() ==> (#[trigger] raws@[i] matches Some(e) ==> event_bytes(e) == got[i].1),
            !writer_indents(writer),
            writer_bytes(writer) == steps_bytes(read_bytes(got), planned.subrange(0, j as int), Seq::empty()),
        decreases steps@.len() - j,
    {
        assert(planned[j as int] == steps@[j as int].view());
        assert(planned.subrange(0, j + 1).drop_last() =~= planned.subrange(0, j as int));
        let failure = match &steps[j] {
            RewriteStep::Keep(k) => {
                match &raws[*k] {
                    Some(e) => match write_kept_event(&mut writer, e) {
                        Ok(()) => None,
                        Err(x) => Some(concat("XMP 写入失败：", x.as_str())),
                    },
                    None => {
                        assert(false);
                        None
                    },
                }
            },
            RewriteStep::Element { empty, name, attributes } => match write_rebuilt_element(&mut writer, *empty, name, attributes) {
                Ok(()) => None,
                Err(x) => Some(concat("XMP 写入失败：", x.as_str())),
            },
            RewriteStep::RatingText => {
                assert(false);
                None
            },
        };
        if let Some(m) = failure {
            return Err(m);
        }
        j = j + 1;
    }
    assert(planned.subrange(0, planned.len() as int) =~= planned);
    let out = written_bytes(writer);
    assert(out@ == cleaned_bytes(packet@));
    if out.len() > MAX_JPEG_SIDECAR_BYTES {
        return Err("处理后的 XMP 超过 4 MB 安全限制".to_owned());
    }
    Ok(out)
}

// ---------------------------------------------------------------------------
// Nothing stale is kept
// ---------------------------------------------------------------------------
/// An element step comes from a raw element read as event `k` whose name is
/// not stale and which cleans to that step's name and attributes.
pub open spec fn step_from_fresh_element(events: Seq<RawXmlEvent>, name: Seq<char>, attributes: Seq<(Seq<char>, Seq<char>)>) -> bool {
    exists|k: int| 0 <= k < events.len() && match #[trigger] events[k] {
        RawXmlEvent::Start(e) => !is_stale_name(e.name@) && cleaned_element(e) == Ok::<(Seq<char>, Seq<(Seq<char>, Seq<char>)>), Seq<char>>((name, attributes)),
        RawXmlEvent::Empty(e) => !is_stale_name(e.name@) && cleaned_element(e) == Ok::<(Seq<char>, Seq<(Seq<char>, Seq<char>)>), Seq<char>>((name, attributes)),
        _ => false,
    }
}

proof fn lemma_steps_fresh(events: Seq<RawXmlEvent>, n: nat)
    requires
        n <= events.len(),
    ensures
        forall|i: int| 0 <= i < sanitize_events(events, n).steps.len() ==> (#[trigger] sanitize_events(events, n).steps[i] matches StepView::Element { name, attributes, .. } ==> step_from_fresh_element(events, name, attributes)),
    decreases n,
{
    if n > 0 {
        lemma_steps_fresh(events, (n - 1) as nat);
        let r = sanitize_events(events, (n - 1) as nat);
        let t = sanitize_events(events, n);
        assert forall|i: int| 0 <= i < t.steps.len() implies (#[trigger] t.steps[i] matches StepView::Element { name, attributes, .. } ==> step_from_fresh_element(events, name, attributes)) by {
            if i < r.steps.len() {
                assert(t.steps[i] == r.steps[i]);
            } else {
                let k = n - 1;
                assert(events[k as int] == events[k as int]);
            }
        }
    }
}

/// Every cleaned attribute comes from a raw attribute whose key is not stale.
pub open spec fn attribute_from_fresh_key(attrs: Seq<Result<(Vec<u8>, Vec<u8>), String>>, key: Seq<char>) -> bool {
    exists|j: int| 0 <= j < attrs.len() && match #[trigger] attrs[j] {
        Ok(kv) => !is_stale_name(kv.0@) && valid_utf8(kv.0@) && decode_utf8(kv.0@) == key,
        Err(_) => false,
    }
}

proof fn lemma_attributes_fresh(attrs: Seq<Result<(Vec<u8>, Vec<u8>), String>>, n: nat)
    requires
        n <= attrs.len(),
        cleaned_attributes(attrs, n) is Ok,
    ensures
        forall|i: int| 0 <= i < cleaned_attributes(attrs, n)->Ok_0.len() ==> attribute_from_fresh_key(attrs, (#[trigger] cleaned_attributes(attrs, n)->Ok_0[i]).0),
    decreases n,
{
    if n > 0 {
        lemma_attributes_fresh(attrs, (n - 1) as nat);
        let done = cleaned_attributes(attrs, (n - 1) as nat)->Ok_0;
        let now = cleaned_attributes(attrs, n)->Ok_0;
        assert forall|i: int| 0 <= i < now.len() implies attribute_from_fresh_key(attrs, (#[trigger] now[i]).0) by {
            if i < done.len() {
                assert(now[i] == done[i]);
            } else {
                assert(attrs[n - 1] == attrs[n - 1]);
            }
        }
    }
}

/// Cleaning keeps nothing stale: every element it writes comes from a read
/// element whose name is not stale, and each of that element's attributes
/// from a read attribute whose key is not stale.
pub proof fn sanitized_elements_are_fresh(events: Seq<RawXmlEvent>, i: int)
    requires
        sanitize_plan(events) is Ok,
        0 <= i < sanitize_plan(events)->Ok_0.len(),
        sanitize_plan(events)->Ok_0[i] is Element,
    ensures
        ({
            let step = sanitize_plan(events)->Ok_0[i];
            &&& step_from_fresh_element(events, step->name, step->attributes)
            &&& exists|k: int| 0 <= k < events.len() && match #[trigger] events[k] {
                RawXmlEvent::Start(e) => cleaned_element(e) == Ok::<(Seq<char>, Seq<(Seq<char>, Seq<char>)>), Seq<char>>((step->name, step->attributes))
                    && forall|a: int| 0 <= a < step->attributes.len() ==> attribute_from_fresh_key(e.attributes@, #[trigger] step->attributes[a].0),
                RawXmlEvent::Empty(e) => cleaned_element(e) == Ok::<(Seq<char>, Seq<(Seq<char>, Seq<char>)>), Seq<char>>((step->name, step->attributes))
                    && forall|a: int| 0 <= a < step->attributes.len() ==> attribute_from_fresh_key(e.attributes@, #[trigger] step->attributes[a].0),
                _ => false,
            }
        }),
{
    lemma_steps_fresh(events, events.len());
    let step = sanitize_plan(events)->Ok_0[i];
    assert(step_from_fresh_element(events, step->name, step->attributes));
    let k = choose|k: int| 0 <= k < events.len() && match #[trigger] events[k] {
        RawXmlEvent::Start(e) => !is_stale_name(e.name@) && cleaned_element(e) == Ok::<(Seq<char>, Seq<(Seq<char>, Seq<char>)>), Seq<char>>((step->name, step->attributes)),
        RawXmlEvent::Empty(e) => !is_stale_name(e.name@) && cleaned_element(e) == Ok::<(Seq<char>, Seq<(Seq<char>, Seq<char>)>), Seq<char>>((step->name, step->attributes)),
        _ => false,
    };
    match events[k] {
        RawXmlEvent::Start(e) => {
            lemma_attributes_fresh(e.attributes@, e.attributes@.len());
        },
        RawXmlEvent::Empty(e) => {
            lemma_attributes_fresh(e.attributes@, e.attributes@.len());
        },
        _ => {},
    }
}

} // verus!
