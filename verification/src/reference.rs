//! Reference sources: the pictures a photographer decided to keep.
//!
//! A reference source is a JPG directory, a text manifest of JPG paths, or a
//! directory of XMP sidecars carrying star ratings. Each becomes an index from
//! pairing key to the reference files that carry it.

use vstd::prelude::*;
use crate::formats::{
    group_key, is_reference, is_reference_path, is_sidecar, is_sidecar_path, photo_group_key,
    sidecar_keys, sidecar_match_keys,
};
use crate::paths::{display_path, extension_of, is_safe_relative, is_safe_relative_chars};
use crate::xmp::{opt_rating, reference_rating, reference_xmp_rating};
use crate::sorting::{Keyed, into_values, keys_sorted, sort_keyed, values_of};
use crate::text::{
    chars_eq, chars_of, concat3, decimal, decimal_text, forward_slashes, is_blank, lowercase,
    string_of, trim_chars, trimmed, unicode_lowercase,
};

verus! {

broadcast use vstd::seq_lib::group_to_multiset_ensures;

/// Largest manifest file that is read.
pub const MAX_MANIFEST_BYTES: u64 = 8388608;

/// Largest XMP sidecar that is read.
pub const MAX_XMP_BYTES: u64 = 4194304;

/// Where the kept pictures come from.
#[derive(Debug, Clone)]
pub enum ReferenceSource {
    Directory { root: String },
    Manifest { path: String },
    XmpRating { root: String, minimum_rating: u8 },
}

impl ReferenceSource {
    pub fn is_directory(&self) -> (r: bool)
        ensures
            r == (self is Directory),
    {
        match self {
            ReferenceSource::Directory { .. } => true,
            _ => false,
        }
    }
}

/// Size and modification time of a file, as read from the file system.
#[derive(Debug, Clone, Copy, PartialEq, Eq, Structural)]
pub struct FileFacts {
    pub size_bytes: u64,
    pub modified_ms: Option<u64>,
}

/// A file found under a root: its path relative to the root, and its facts
/// or the reason they could not be read.
#[derive(Debug)]
pub struct ListedFile {
    pub relative_path: String,
    pub facts: Result<FileFacts, String>,
}

/// The facts of a listed file, with the error text as its view.
pub open spec fn facts_view(f: Result<FileFacts, String>) -> Result<FileFacts, Seq<char>> {
    match f {
        Ok(x) => Ok(x),
        Err(e) => Err(e@),
    }
}

pub fn copy_facts(f: &Result<FileFacts, String>) -> (r: Result<FileFacts, String>)
    ensures
        r == *f,
{
    match f {
        Ok(x) => Ok(*x),
        Err(e) => Err(e.clone()),
    }
}

/// One reference file that carries a key.
#[derive(Debug)]
pub struct ReferenceMatch {
    pub display_path: String,
    /// The reference file itself; `None` for manifest entries, which name no file.
    pub source: Option<ListedFile>,
}

pub struct MatchView {
    pub display: Seq<char>,
    pub source: Option<(Seq<char>, Result<FileFacts, Seq<char>>)>,
}

pub open spec fn listed_view(f: ListedFile) -> (Seq<char>, Result<FileFacts, Seq<char>>) {
    (f.relative_path@, facts_view(f.facts))
}

impl ReferenceMatch {
    pub open spec fn view(&self) -> MatchView {
        MatchView {
            display: self.display_path@,
            source: match self.source {
                Some(f) => Some(listed_view(f)),
                None => None,
            },
        }
    }
}

/// A copy of a listed file.
pub fn copy_listed(f: &ListedFile) -> (r: ListedFile)
    ensures
        r == *f,
{
    ListedFile { relative_path: f.relative_path.clone(), facts: copy_facts(&f.facts) }
}

/// All reference files that carry one key.
#[derive(Debug)]
pub struct ReferenceEntry {
    pub key: String,
    pub matches: Vec<ReferenceMatch>,
}

pub open spec fn match_views(s: Seq<ReferenceMatch>) -> Seq<MatchView> {
    s.map_values(|m: ReferenceMatch| m.view())
}

/// An index from pairing key to reference files.
#[derive(Debug)]
pub struct ReferenceIndex {
    pub root: Option<String>,
    pub entries: Vec<ReferenceEntry>,
    pub source_items: usize,
    pub duplicate_keys: usize,
}

impl ReferenceIndex {
    /// Keys are pairwise distinct and every entry holds at least one file.
    pub open spec fn wf(&self) -> bool {
        &&& distinct_keys(self.entries@)
        &&& forall|i: int| 0 <= i < self.entries@.len() ==> (#[trigger] self.entries@[i]).matches@.len() > 0
    }
}

/// The entries have pairwise distinct keys.
pub open spec fn distinct_keys(entries: Seq<ReferenceEntry>) -> bool {
    forall|i: int, j: int| 0 <= i < j < entries.len() ==> entries[i].key@ != entries[j].key@
}

/// Number of entries with more than one reference file.
pub open spec fn duplicate_count(entries: Seq<ReferenceEntry>) -> nat
    decreases entries.len(),
{
    if entries.len() == 0 {
        0
    } else {
        duplicate_count(entries.drop_last()) + if entries.last().matches@.len() > 1 {
            1nat
        } else {
            0nat
        }
    }
}

/// The pairing key of a reference path.
pub fn match_key(path: &str, case_sensitive: bool) -> (r: String)
    ensures
        r@ == group_key(path@, case_sensitive),
{
    photo_group_key(path, case_sensitive)
}

// ---------------------------------------------------------------------------
// Ordering listings
// ---------------------------------------------------------------------------
/// Listings are processed in the order of their lower-cased display paths.
pub open spec fn listing_key(f: ListedFile) -> Seq<char> {
    unicode_lowercase(forward_slashes(f.relative_path@))
}

pub open spec fn listing_sorted(s: Seq<ListedFile>) -> bool {
    forall|i: int, j: int|
        0 <= i < j < s.len() ==> crate::text::text_le(
            #[trigger] listing_key(s[i]),
            #[trigger] listing_key(s[j]),
        )
}

/// Orders a listing by lower-cased display path.
pub fn sort_listing(files: Vec<ListedFile>) -> (r: Vec<ListedFile>)
    ensures
        r@.to_multiset() == files@.to_multiset(),
        r@.len() == files@.len(),
        listing_sorted(r@),
{
    let mut keyed: Vec<Keyed<ListedFile>> = Vec::new();
    let mut input = files;
    let ghost original = input@;
    while input.len() > 0
        invariant
            keyed@.map_values(|k: Keyed<ListedFile>| k.value).to_multiset().add(
                input@.to_multiset(),
            ) == original.to_multiset(),
            forall|i: int| 0 <= i < keyed@.len() ==> (#[trigger] keyed@[i]).key@ == listing_key(keyed@[i].value),
            keyed@.len() + input@.len() == original.len(),
        decreases input@.len(),
    {
        let ghost before = input@;
        let ghost kb = keyed@;
        let f = input.pop().unwrap();
        proof {
            assert(before =~= input@.push(f));
            vstd::seq_lib::to_multiset_build(input@, f);
        }
        let shown = display_path(f.relative_path.as_str());
        let low = lowercase(shown.as_str());
        let key = chars_of(low.as_str());
        keyed.push(Keyed { key, value: f });
        proof {
            assert(keyed@.map_values(|k: Keyed<ListedFile>| k.value) =~= kb.map_values(
                |k: Keyed<ListedFile>| k.value,
            ).push(f));
            vstd::seq_lib::to_multiset_build(kb.map_values(|k: Keyed<ListedFile>| k.value), f);
        }
    }
    let ghost kv = keyed@;
    let sorted = sort_keyed(keyed);
    let ghost sv = sorted@;
    let out = into_values(sorted);
    proof {
        assert(out@.to_multiset() == original.to_multiset());
        assert forall|i: int, j: int| 0 <= i < j < out@.len() implies crate::text::text_le(
            #[trigger] listing_key(out@[i]),
            #[trigger] listing_key(out@[j]),
        ) by {
            assert(kv.contains(sv[i]));
            let a = choose|a: int| 0 <= a < kv.len() && kv[a] == sv[i];
            assert(kv.contains(sv[j]));
            let b = choose|b: int| 0 <= b < kv.len() && kv[b] == sv[j];
            assert(sv[i].key@ == listing_key(sv[i].value));
            assert(sv[j].key@ == listing_key(sv[j].value));
            assert(crate::text::text_le(sv[i].key@, sv[j].key@));
        }
    }
    out
}

// ---------------------------------------------------------------------------
// Manifest
// ---------------------------------------------------------------------------
/// The text split at every line feed (empty pieces kept).
pub open spec fn newline_pieces(s: Seq<char>) -> Seq<Seq<char>>
    decreases s.len(),
{
    if s.len() == 0 {
        seq![seq![]]
    } else if s.last() == '\n' {
        newline_pieces(s.drop_last()).push(seq![])
    } else {
        let prev = newline_pieces(s.drop_last());
        prev.update(prev.len() - 1, prev.last().push(s.last()))
    }
}

proof fn lemma_newline_pieces_nonempty(s: Seq<char>)
    ensures
        newline_pieces(s).len() >= 1,
    decreases s.len(),
{
    if s.len() > 0 {
        lemma_newline_pieces_nonempty(s.drop_last());
    }
}

/// `str::lines`, up to a carriage return before each line feed (which the
/// manifest rules trim away anyway): an empty final piece is not a line.
pub open spec fn text_lines(s: Seq<char>) -> Seq<Seq<char>> {
    let p = newline_pieces(s);
    if p.last().len() == 0 {
        p.drop_last()
    } else {
        p
    }
}

/// What one manifest line contributes.
pub enum LineOutcome {
    Skip,
    Unsafe,
    NotJpeg,
    Entry(Seq<char>, Seq<char>),
}

/// Blank lines and `#` comments are skipped; every other line must be a safe
/// relative `.jpg`/`.jpeg` path.
pub open spec fn line_outcome(line: Seq<char>, case_sensitive: bool) -> LineOutcome {
    let value = trimmed(line);
    if value.len() == 0 || value[0] == '#' {
        LineOutcome::Skip
    } else if !is_safe_relative(value) {
        LineOutcome::Unsafe
    } else if !is_reference_path(value) {
        LineOutcome::NotJpeg
    } else {
        LineOutcome::Entry(group_key(value, case_sensitive), forward_slashes(value))
    }
}

/// Why a manifest is refused: the 1-based line, and which rule it breaks
/// (0: unsafe path, 1: not a JPG, 2: repeated key); line 0 means no entry.
pub open spec fn manifest_entries(lines: Seq<Seq<char>>, case_sensitive: bool) -> Result<
    Seq<(Seq<char>, Seq<char>)>,
    (nat, nat),
>
    decreases lines.len(),
{
    if lines.len() == 0 {
        Ok(seq![])
    } else {
        match manifest_entries(lines.drop_last(), case_sensitive) {
            Err(e) => Err(e),
            Ok(prev) => match line_outcome(lines.last(), case_sensitive) {
                LineOutcome::Skip => Ok(prev),
                LineOutcome::Unsafe => Err((lines.len(), 0nat)),
                LineOutcome::NotJpeg => Err((lines.len(), 1nat)),
                LineOutcome::Entry(key, shown) => if exists|i: int|
                    0 <= i < prev.len() && (#[trigger] prev[i]).0 == key {
                    Err((lines.len(), 2nat))
                } else {
                    Ok(prev.push((key, shown)))
                },
            },
        }
    }
}

/// The outcome of parsing a whole manifest text.
pub open spec fn manifest_result(input: Seq<char>, case_sensitive: bool) -> Result<
    Seq<(Seq<char>, Seq<char>)>,
    (nat, nat),
> {
    match manifest_entries(text_lines(input), case_sensitive) {
        Ok(entries) => if entries.len() == 0 {
            Err((0nat, 3nat))
        } else {
            Ok(entries)
        },
        Err(e) => Err(e),
    }
}

/// The error text for a refused manifest.
pub open spec fn manifest_error_text(e: (nat, nat)) -> Seq<char> {
    if e.1 == 3 {
        "文件清单中没有有效 JPG 路径"@
    } else {
        "文件清单第 "@ + decimal_text(e.0) + (if e.1 == 0 {
            " 行不是安全相对路径"@
        } else if e.1 == 1 {
            " 行不是 JPG/JPEG"@
        } else {
            " 行产生了重复匹配键"@
        })
    }
}

pub open spec fn pair_views(s: Seq<(String, String)>) -> Seq<(Seq<char>, Seq<char>)> {
    s.map_values(|p: (String, String)| (p.0@, p.1@))
}

/// Outcome of one trimmed line, computed.
fn classify_line(line: &Vec<char>, case_sensitive: bool) -> (r: Option<Result<(String, String), u8>>)
    ensures
        match line_outcome(line@, case_sensitive) {
            LineOutcome::Skip => r is None,
            LineOutcome::Unsafe => r == Some(Err::<(String, String), u8>(0u8)),
            LineOutcome::NotJpeg => r == Some(Err::<(String, String), u8>(1u8)),
            LineOutcome::Entry(k, d) => r matches Some(Ok(p)) && p.0@ == k && p.1@ == d,
        },
{
    let value = trim_chars(line);
    if value.len() == 0 || value[0] == '#' {
        return None;
    }
    if !is_safe_relative_chars(&value) {
        return Some(Err(0u8));
    }
    let text = string_of(value.as_slice());
    if !is_reference(text.as_str()) {
        return Some(Err(1u8));
    }
    let key = match_key(text.as_str(), case_sensitive);
    let shown = display_path(text.as_str());
    Some(Ok((key, shown)))
}

/// Parses a manifest of kept JPG paths, one per line, into (key, display
/// path) pairs. Blank lines and `#` comments are ignored.
pub fn parse_manifest_entries(input: &str, case_sensitive: bool) -> (r: Result<Vec<(String, String)>, String>)
    ensures
        match manifest_result(input@, case_sensitive) {
            Ok(entries) => r matches Ok(v) && pair_views(v@) == entries,
            Err(e) => r matches Err(msg) && msg@ == manifest_error_text(e),
        },
{
    let v = chars_of(input);
    let mut entries: Vec<(String, String)> = Vec::new();
    let mut line: Vec<char> = Vec::new();
    let mut line_no: u64 = 0;
    let mut i: usize = 0;
    let ghost mut done: Seq<Seq<char>> = seq![];
    assert(pair_views(entries@) =~= seq![]);
    assert(v@.subrange(0, 0) =~= seq![]);
    assert(done.push(line@) =~= seq![seq![]]);
    while i < v.len()
        invariant
            i <= v@.len(),
            v@ == input@,
            line_no as int == done.len(),
            line_no + line@.len() <= i,
            newline_pieces(v@.subrange(0, i as int)) == done.push(line@),
            manifest_entries(done, case_sensitive) == Ok::<Seq<(Seq<char>, Seq<char>)>, (nat, nat)>(pair_views(entries@)),
        decreases v@.len() - i,
    {
        let ghost pre = v@.subrange(0, i as int);
        let ghost next = v@.subrange(0, i + 1);
        proof {
            assert(next.drop_last() =~= pre);
            assert(next.last() == v@[i as int]);
        }
        if v[i] == '\n' {
            line_no = line_no + 1;
            let outcome = classify_line(&line, case_sensitive);
            let ghost lines = done.push(line@);
            proof {
                assert(lines.drop_last() =~= done);
                assert(lines.last() == line@);
                assert(newline_pieces(next) == newline_pieces(pre).push(seq![]));
                lemma_completed_lines(input@, i + 1, lines);
            }
            match outcome {
                None => {},
                Some(Err(kind)) => {
                    let number = decimal(line_no);
                    let tail = if kind == 0 {
                        " 行不是安全相对路径"
                    } else {
                        " 行不是 JPG/JPEG"
                    };
                    proof { manifest_prefix_error(input@, case_sensitive, lines, (lines.len(), kind as nat)); }
                    return Err(concat3("文件清单第 ", number.as_str(), tail));
                },
                Some(Ok((key, shown))) => {
                    let mut dup = false;
                    let mut j: usize = 0;
                    let kv = chars_of(key.as_str());
                    while j < entries.len()
                        invariant
                            j <= entries@.len(),
                            kv@ == key@,
                            dup == exists|m: int| 0 <= m < j && (#[trigger] entries@[m]).0@ == key@,
                        decreases entries@.len() - j,
                    {
                        let other = chars_of(entries[j].0.as_str());
                        if chars_eq(&other, &kv) {
                            dup = true;
                        }
                        j = j + 1;
                    }
                    proof {
                        let pv = pair_views(entries@);
                        if dup {
                            let m = choose|m: int| 0 <= m < j && (#[trigger] entries@[m]).0@ == key@;
                            assert(pv[m].0 == key@);
                        } else {
                            assert forall|m: int| 0 <= m < pv.len() implies (#[trigger] pv[m]).0 != key@ by {
                                assert(entries@[m].0@ != key@);
                            }
                        }
                    }
                    if dup {
                        let number = decimal(line_no);
                        proof { manifest_prefix_error(input@, case_sensitive, lines, (lines.len(), 2nat)); }
                        return Err(concat3("文件清单第 ", number.as_str(), " 行产生了重复匹配键"));
                    }
                    let ghost before = entries@;
                    entries.push((key, shown));
                    assert(pair_views(entries@) =~= pair_views(before).push((key@, shown@)));
                },
            }
            proof {
                done = lines;
            }
            line = Vec::new();
            assert(newline_pieces(next) == done.push(line@));
        } else {
            proof {
                let p = newline_pieces(pre);
                assert(p == done.push(line@));
            }
            line.push(v[i]);
            proof {
                assert(newline_pieces(next) =~= done.push(line@));
            }
        }
        i = i + 1;
    }
    proof {
        assert(v@.subrange(0, v@.len() as int) =~= v@);
    }
    let ghost all = newline_pieces(v@);
    let ghost lines = text_lines(v@);
    if line.len() > 0 {
        line_no = line_no + 1;
        proof {
            assert(lines == done.push(line@));
            assert(lines.drop_last() =~= done);
            assert(lines.last() == line@);
            assert(lines.subrange(0, lines.len() as int) =~= lines);
        }
        let outcome = classify_line(&line, case_sensitive);
        match outcome {
            None => {},
            Some(Err(kind)) => {
                let number = decimal(line_no);
                let tail = if kind == 0 {
                    " 行不是安全相对路径"
                } else {
                    " 行不是 JPG/JPEG"
                };
                proof { manifest_prefix_error(input@, case_sensitive, lines, (lines.len(), kind as nat)); }
                return Err(concat3("文件清单第 ", number.as_str(), tail));
            },
            Some(Ok((key, shown))) => {
                let mut dup = false;
                let mut j: usize = 0;
                let kv = chars_of(key.as_str());
                while j < entries.len()
                    invariant
                        j <= entries@.len(),
                        kv@ == key@,
                        dup == exists|m: int| 0 <= m < j && (#[trigger] entries@[m]).0@ == key@,
                    decreases entries@.len() - j,
                {
                    let other = chars_of(entries[j].0.as_str());
                    if chars_eq(&other, &kv) {
                        dup = true;
                    }
                    j = j + 1;
                }
                proof {
                    let pv = pair_views(entries@);
                    if dup {
                        let m = choose|m: int| 0 <= m < j && (#[trigger] entries@[m]).0@ == key@;
                        assert(pv[m].0 == key@);
                    } else {
                        assert forall|m: int| 0 <= m < pv.len() implies (#[trigger] pv[m]).0 != key@ by {
                            assert(entries@[m].0@ != key@);
                        }
                    }
                }
                if dup {
                    let number = decimal(line_no);
                    proof { manifest_prefix_error(input@, case_sensitive, lines, (lines.len(), 2nat)); }
                    return Err(concat3("文件清单第 ", number.as_str(), " 行产生了重复匹配键"));
                }
                let ghost before = entries@;
                entries.push((key, shown));
                assert(pair_views(entries@) =~= pair_views(before).push((key@, shown@)));
            },
        }
    } else {
        proof {
            assert(lines =~= done);
        }
    }
    if entries.len() == 0 {
        return Err("文件清单中没有有效 JPG 路径".to_owned());
    }
    Ok(entries)
}

/// The pieces of a prefix of the text, but the last, begin the pieces of the text.
proof fn lemma_pieces_prefix(s: Seq<char>, i: int)
    requires
        0 <= i <= s.len(),
    ensures
        newline_pieces(s.subrange(0, i)).len() <= newline_pieces(s).len(),
        newline_pieces(s).subrange(0, newline_pieces(s.subrange(0, i)).len() - 1)
            == newline_pieces(s.subrange(0, i)).drop_last(),
    decreases s.len(),
{
    lemma_newline_pieces_nonempty(s.subrange(0, i));
    if i == s.len() {
        assert(s.subrange(0, i) =~= s);
        assert(newline_pieces(s).subrange(0, newline_pieces(s).len() - 1) =~= newline_pieces(s).drop_last());
    } else {
        let t = s.drop_last();
        assert(t.subrange(0, i) =~= s.subrange(0, i));
        lemma_pieces_prefix(t, i);
        lemma_newline_pieces_nonempty(t);
        let p = newline_pieces(s.subrange(0, i));
        let q = newline_pieces(t);
        assert(newline_pieces(s).subrange(0, p.len() - 1) =~= q.subrange(0, p.len() - 1));
    }
}

/// A refused prefix of the lines refuses the whole manifest.
proof fn lemma_entries_err_extends(lines: Seq<Seq<char>>, k: int, case_sensitive: bool, e: (nat, nat))
    requires
        0 <= k <= lines.len(),
        manifest_entries(lines.subrange(0, k), case_sensitive) == Err::<Seq<(Seq<char>, Seq<char>)>, (nat, nat)>(e),
    ensures
        manifest_entries(lines, case_sensitive) == Err::<Seq<(Seq<char>, Seq<char>)>, (nat, nat)>(e),
    decreases lines.len(),
{
    if k == lines.len() {
        assert(lines.subrange(0, k) =~= lines);
    } else {
        let t = lines.drop_last();
        assert(t.subrange(0, k) =~= lines.subrange(0, k));
        lemma_entries_err_extends(t, k, case_sensitive, e);
    }
}

/// The lines completed before position `i` of the input (just after a line
/// feed) begin the lines of the input.
proof fn lemma_completed_lines(input: Seq<char>, i: int, lines: Seq<Seq<char>>)
    requires
        0 < i <= input.len(),
        input[i - 1] == '\n',
        newline_pieces(input.subrange(0, i)) == lines.push(seq![]),
    ensures
        lines.len() <= text_lines(input).len(),
        text_lines(input).subrange(0, lines.len() as int) == lines,
{
    lemma_pieces_prefix(input, i);
    let q = newline_pieces(input);
    assert(lines.push(seq![]).drop_last() =~= lines);
    assert(q.subrange(0, lines.len() as int) == lines);
    if q.last().len() == 0 {
        if q.len() == lines.len() {
            assert(q.last() == lines.last());
        }
        assert(text_lines(input).subrange(0, lines.len() as int) =~= q.subrange(0, lines.len() as int));
    }
}

/// An error on a line stops the parse: the whole manifest fails with it.
proof fn manifest_prefix_error(input: Seq<char>, case_sensitive: bool, prefix: Seq<Seq<char>>, e: (nat, nat))
    requires
        manifest_entries(prefix, case_sensitive) == Err::<Seq<(Seq<char>, Seq<char>)>, (nat, nat)>(e),
        prefix.len() <= text_lines(input).len(),
        text_lines(input).subrange(0, prefix.len() as int) == prefix,
    ensures
        manifest_result(input, case_sensitive) == Err::<Seq<(Seq<char>, Seq<char>)>, (nat, nat)>(e),
{
    lemma_entries_err_extends(text_lines(input), prefix.len() as int, case_sensitive, e);
}

/// The keys of a manifest, for checks that only need the key set.
pub fn parse_manifest(input: &str, case_sensitive: bool) -> (r: Result<Vec<String>, String>)
    ensures
        match manifest_result(input@, case_sensitive) {
            Ok(entries) => r matches Ok(v) && v@.map_values(|k: String| k@) == entries.map_values(
                |p: (Seq<char>, Seq<char>)| p.0,
            ),
            Err(e) => r matches Err(msg) && msg@ == manifest_error_text(e),
        },
{
    let entries = parse_manifest_entries(input, case_sensitive)?;
    let ghost ev = pair_views(entries@);
    let mut keys: Vec<String> = Vec::new();
    let mut i: usize = 0;
    while i < entries.len()
        invariant
            i <= entries@.len(),
            ev == pair_views(entries@),
            keys@.map_values(|k: String| k@) == ev.subrange(0, i as int).map_values(
                |p: (Seq<char>, Seq<char>)| p.0,
            ),
        decreases entries@.len() - i,
    {
        let ghost before = keys@;
        let k = entries[i].0.clone();
        keys.push(k);
        proof {
            assert(keys@.map_values(|k: String| k@) =~= before.map_values(|k: String| k@).push(k@));
            assert(ev[i as int].0 == entries@[i as int].0@);
            assert(ev.subrange(0, i + 1) =~= ev.subrange(0, i as int).push(ev[i as int]));
            assert(keys@.map_values(|k: String| k@) =~= ev.subrange(0, i + 1).map_values(
                |p: (Seq<char>, Seq<char>)| p.0,
            ));
        }
        i = i + 1;
    }
    assert(ev.subrange(0, ev.len() as int) =~= ev);
    Ok(keys)
}

// ---------------------------------------------------------------------------
// Ratings written in XMP
// ---------------------------------------------------------------------------
pub open spec fn is_digit(c: char) -> bool {
    '0' <= c && c <= '9'
}

pub open spec fn digits_value(s: Seq<char>) -> int
    decreases s.len(),
{
    if s.len() == 0 {
        0
    } else {
        10 * digits_value(s.drop_last()) + ((s.last() as u32) - 48)
    }
}

pub open spec fn all_digits(s: Seq<char>) -> bool {
    forall|i: int| 0 <= i < s.len() ==> is_digit(#[trigger] s[i])
}

/// Length of the optional sign in front of a number.
pub open spec fn sign_len(t: Seq<char>) -> int {
    if t.len() > 0 && (t[0] == '-' || t[0] == '+') {
        1
    } else {
        0
    }
}

/// `str::parse::<i8>`: an optional sign and at least one decimal digit, in range.
pub open spec fn parsed_i8(t: Seq<char>) -> Option<int> {
    let body = t.subrange(sign_len(t), t.len() as int);
    if body.len() == 0 || !all_digits(body) {
        None
    } else {
        let v = if t[0] == '-' { -digits_value(body) } else { digits_value(body) };
        if -128 <= v <= 127 {
            Some(v)
        } else {
            None
        }
    }
}

proof fn lemma_digits_value_grows(s: Seq<char>, i: int)
    requires
        0 <= i <= s.len(),
        forall|k: int| 0 <= k < s.len() ==> is_digit(#[trigger] s[k]),
    ensures
        digits_value(s.subrange(0, i)) <= digits_value(s),
        0 <= digits_value(s.subrange(0, i)),
    decreases s.len() - i,
{
    if i < s.len() {
        let t = s.subrange(0, i + 1);
        assert(t.drop_last() =~= s.subrange(0, i));
        lemma_digits_value_grows(s, i + 1);
    } else {
        assert(s.subrange(0, i) =~= s);
        lemma_digits_nonneg(s);
    }
}

proof fn lemma_digits_nonneg(s: Seq<char>)
    requires
        forall|k: int| 0 <= k < s.len() ==> is_digit(#[trigger] s[k]),
    ensures
        0 <= digits_value(s),
    decreases s.len(),
{
    if s.len() > 0 {
        lemma_digits_nonneg(s.drop_last());
    }
}

/// Parses a textual rating: an integer from -1 (rejected picture) to 5.
pub fn parse_rating(value: &str) -> (r: Result<i8, String>)
    ensures
        match parsed_i8(trimmed(value@)) {
            None => r matches Err(e) && e@ == "XMP Rating 不是整数"@,
            Some(v) => if -1 <= v <= 5 {
                r matches Ok(x) && x as int == v
            } else {
                r matches Err(e) && e@ == "XMP Rating 必须在 -1 到 5 之间"@
            },
        },
{
    let all = chars_of(value);
    let t = trim_chars(&all);
    let ghost tv = t@;
    let negative = t.len() > 0 && t[0] == '-';
    let signed = t.len() > 0 && (t[0] == '-' || t[0] == '+');
    let start: usize = if signed { 1 } else { 0 };
    let ghost body = tv.subrange(start as int, tv.len() as int);
    if t.len() <= start {
        return Err("XMP Rating 不是整数".to_owned());
    }
    let mut value_acc: i64 = 0;
    let mut i = start;
    while i < t.len()
        invariant
            start <= i <= t@.len(),
            tv == t@,
            body == tv.subrange(start as int, tv.len() as int),
            tv == trimmed(value@),
            start == sign_len(tv),
            negative == (tv[0] == '-'),
            tv.len() > start,
            forall|k: int| 0 <= k < i - start ==> is_digit(#[trigger] body[k]),
            value_acc == digits_value(body.subrange(0, i - start)) || (value_acc == 1000
                && digits_value(body.subrange(0, i - start)) > 128),
            0 <= value_acc <= 1000,
        decreases t@.len() - i,
    {
        let c = t[i];
        if !('0' <= c && c <= '9') {
            assert(!is_digit(body[i - start]));
            return Err("XMP Rating 不是整数".to_owned());
        }
        let ghost pre = body.subrange(0, i - start);
        let ghost next = body.subrange(0, i - start + 1);
        assert(next.drop_last() =~= pre);
        let d: i64 = (c as u32 - 48) as i64;
        if value_acc == 1000 || value_acc * 10 + d > 128 {
            value_acc = 1000;
        } else {
            value_acc = value_acc * 10 + d;
        }
        proof {
            if digits_value(pre) > 128 {
                lemma_digits_nonneg(pre);
            }
        }
        i = i + 1;
    }
    assert(body.subrange(0, body.len() as int) =~= body);
    let v: i64 = if negative { -value_acc } else { value_acc };
    if value_acc == 1000 || v < -128 || v > 127 {
        return Err("XMP Rating 不是整数".to_owned());
    }
    if v < -1 || v > 5 {
        return Err("XMP Rating 必须在 -1 到 5 之间".to_owned());
    }
    Ok(v as i8)
}

// ---------------------------------------------------------------------------
// Building indexes
// ---------------------------------------------------------------------------
/// The reference files, in order, that carry `key`.
pub open spec fn matches_for(pairs: Seq<(Seq<char>, MatchView)>, key: Seq<char>) -> Seq<MatchView>
    decreases pairs.len(),
{
    if pairs.len() == 0 {
        seq![]
    } else {
        let rest = matches_for(pairs.drop_last(), key);
        if pairs.last().0 == key {
            rest.push(pairs.last().1)
        } else {
            rest
        }
    }
}

/// `entries` index exactly the keyed reference files `pairs`: one entry per
/// distinct key, holding that key's files in order.
pub open spec fn indexes(entries: Seq<ReferenceEntry>, pairs: Seq<(Seq<char>, MatchView)>) -> bool {
    &&& distinct_keys(entries)
    &&& forall|i: int| 0 <= i < entries.len() ==> match_views((#[trigger] entries[i]).matches@) == matches_for(pairs, entries[i].key@)
    &&& forall|i: int| 0 <= i < entries.len() ==> (#[trigger] entries[i]).matches@.len() > 0
    &&& forall|k: int| 0 <= k < pairs.len() ==> exists|i: int| 0 <= i < entries.len() && (#[trigger] entries[i]).key@ == (#[trigger] pairs[k]).0
}

proof fn lemma_matches_for_absent(pairs: Seq<(Seq<char>, MatchView)>, key: Seq<char>)
    requires
        forall|k: int| 0 <= k < pairs.len() ==> (#[trigger] pairs[k]).0 != key,
    ensures
        matches_for(pairs, key) == Seq::<MatchView>::empty(),
    decreases pairs.len(),
{
    if pairs.len() > 0 {
        lemma_matches_for_absent(pairs.drop_last(), key);
    }
}

/// How many reference files the entries hold in all.
pub open spec fn match_total(entries: Seq<ReferenceEntry>) -> nat
    decreases entries.len(),
{
    if entries.len() == 0 {
        0
    } else {
        match_total(entries.drop_last()) + entries.last().matches@.len()
    }
}

/// How many of the entries carry `key` (at most one, for distinct keys).
pub open spec fn key_hits(entries: Seq<ReferenceEntry>, key: Seq<char>) -> nat
    decreases entries.len(),
{
    if entries.len() == 0 {
        0
    } else {
        key_hits(entries.drop_last(), key) + if entries.last().key@ == key { 1nat } else { 0nat }
    }
}

/// The entries' matches, counted against the pairs they are drawn from.
pub open spec fn matched_total(entries: Seq<ReferenceEntry>, pairs: Seq<(Seq<char>, MatchView)>) -> nat
    decreases entries.len(),
{
    if entries.len() == 0 {
        0
    } else {
        matched_total(entries.drop_last(), pairs) + matches_for(pairs, entries.last().key@).len()
    }
}

proof fn lemma_key_hits_one(entries: Seq<ReferenceEntry>, key: Seq<char>)
    requires
        distinct_keys(entries),
        exists|i: int| 0 <= i < entries.len() && (#[trigger] entries[i]).key@ == key,
    ensures
        key_hits(entries, key) == 1,
    decreases entries.len(),
{
    let n = entries.len() - 1;
    assert(distinct_keys(entries.drop_last()));
    if entries.last().key@ == key {
        assert forall|i: int| 0 <= i < entries.drop_last().len() implies (#[trigger] entries.drop_last()[i]).key@ != key by {
            assert(entries[i].key@ != entries[n].key@);
        }
        lemma_key_hits_zero(entries.drop_last(), key);
    } else {
        let i = choose|i: int| 0 <= i < entries.len() && (#[trigger] entries[i]).key@ == key;
        assert(entries.drop_last()[i].key@ == key);
        lemma_key_hits_one(entries.drop_last(), key);
    }
}

proof fn lemma_key_hits_zero(entries: Seq<ReferenceEntry>, key: Seq<char>)
    requires
        forall|i: int| 0 <= i < entries.len() ==> (#[trigger] entries[i]).key@ != key,
    ensures
        key_hits(entries, key) == 0,
    decreases entries.len(),
{
    if entries.len() > 0 {
        assert(entries[entries.len() - 1].key@ != key);
        lemma_key_hits_zero(entries.drop_last(), key);
    }
}

proof fn lemma_matched_total_push(entries: Seq<ReferenceEntry>, pairs: Seq<(Seq<char>, MatchView)>)
    requires
        pairs.len() > 0,
    ensures
        matched_total(entries, pairs) == matched_total(entries, pairs.drop_last()) + key_hits(entries, pairs.last().0),
    decreases entries.len(),
{
    if entries.len() > 0 {
        lemma_matched_total_push(entries.drop_last(), pairs);
    }
}

/// Every key of the pairs is some entry's key.
pub open spec fn has_key(entries: Seq<ReferenceEntry>, key: Seq<char>) -> bool {
    exists|i: int| 0 <= i < entries.len() && (#[trigger] entries[i]).key@ == key
}

proof fn lemma_matched_total(entries: Seq<ReferenceEntry>, pairs: Seq<(Seq<char>, MatchView)>)
    requires
        distinct_keys(entries),
        forall|k: int| 0 <= k < pairs.len() ==> has_key(entries, #[trigger] pairs[k].0),
    ensures
        matched_total(entries, pairs) == pairs.len(),
    decreases pairs.len(),
{
    if pairs.len() == 0 {
        lemma_matched_total_empty(entries, pairs);
    } else {
        let rest = pairs.drop_last();
        assert forall|k: int| 0 <= k < rest.len() implies has_key(entries, #[trigger] rest[k].0) by {
            assert(rest[k] == pairs[k]);
            assert(has_key(entries, pairs[k].0));
        }
        lemma_matched_total(entries, rest);
        lemma_matched_total_push(entries, pairs);
        assert(pairs[pairs.len() - 1] == pairs.last());
        assert(has_key(entries, pairs[pairs.len() - 1].0));
        lemma_key_hits_one(entries, pairs.last().0);
    }
}

proof fn lemma_matched_total_empty(entries: Seq<ReferenceEntry>, pairs: Seq<(Seq<char>, MatchView)>)
    requires
        pairs.len() == 0,
    ensures
        matched_total(entries, pairs) == 0,
    decreases entries.len(),
{
    if entries.len() > 0 {
        lemma_matched_total_empty(entries.drop_last(), pairs);
    }
}

proof fn lemma_match_total_is_matched(entries: Seq<ReferenceEntry>, pairs: Seq<(Seq<char>, MatchView)>)
    requires
        forall|i: int| 0 <= i < entries.len() ==> match_views((#[trigger] entries[i]).matches@) == matches_for(pairs, entries[i].key@),
    ensures
        match_total(entries) == matched_total(entries, pairs),
    decreases entries.len(),
{
    if entries.len() > 0 {
        let last = entries.len() - 1;
        assert(match_views(entries[last].matches@).len() == entries[last].matches@.len());
        lemma_match_total_is_matched(entries.drop_last(), pairs);
    }
}

/// Entries that index a sequence of keyed files hold exactly that many files.
pub proof fn lemma_indexed_total(entries: Seq<ReferenceEntry>, pairs: Seq<(Seq<char>, MatchView)>)
    requires
        indexes(entries, pairs),
    ensures
        match_total(entries) == pairs.len(),
{
    assert forall|k: int| 0 <= k < pairs.len() implies has_key(entries, #[trigger] pairs[k].0) by {
        let i = choose|i: int| 0 <= i < entries.len() && (#[trigger] entries[i]).key@ == (#[trigger] pairs[k]).0;
        assert(entries[i].key@ == pairs[k].0);
    }
    lemma_match_total_is_matched(entries, pairs);
    lemma_matched_total(entries, pairs);
}

proof fn lemma_directory_pairs_count(files: Seq<ListedFile>, cs: bool)
    ensures
        directory_pairs(files, cs).len() == reference_count(files),
    decreases files.len(),
{
    if files.len() > 0 {
        lemma_directory_pairs_count(files.drop_last(), cs);
    }
}

/// Position of the entry for `key`, if there is one.
pub(crate) fn find_entry(entries: &Vec<ReferenceEntry>, key: &Vec<char>) -> (r: Option<usize>)
    ensures
        r matches Some(i) ==> i < entries@.len() && entries@[i as int].key@ == key@,
        r is None ==> forall|j: int| 0 <= j < entries@.len() ==> (#[trigger] entries@[j]).key@ != key@,
{
    let mut i: usize = 0;
    while i < entries.len()
        invariant
            i <= entries@.len(),
            forall|j: int| 0 <= j < i ==> (#[trigger] entries@[j]).key@ != key@,
        decreases entries@.len() - i,
    {
        let other = chars_of(entries[i].key.as_str());
        if chars_eq(&other, key) {
            return Some(i);
        }
        i = i + 1;
    }
    None
}

/// Adds one reference file under `key`.
fn add_match(entries: &mut Vec<ReferenceEntry>, key: String, m: ReferenceMatch, Ghost(pairs): Ghost<Seq<(Seq<char>, MatchView)>>)
    requires
        indexes(old(entries)@, pairs),
    ensures
        indexes(final(entries)@, pairs.push((key@, m.view()))),
{
    let ghost np = pairs.push((key@, m.view()));
    let ghost mv = m.view();
    let ghost kt = key@;
    assert(np.drop_last() =~= pairs);
    let kv = chars_of(key.as_str());
    let ghost old_entries = entries@;
    match find_entry(entries, &kv) {
        Some(i) => {
            let mut entry = entries.remove(i);
            let ghost old_matches = entry.matches@;
            entry.matches.push(m);
            assert(match_views(entry.matches@) =~= match_views(old_matches).push(mv));
            entries.insert(i, entry);
            proof {
                assert(entries@ =~= old_entries.update(i as int, entry));
                assert forall|a: int| 0 <= a < entries@.len() implies match_views((#[trigger] entries@[a]).matches@) == matches_for(np, entries@[a].key@) by {
                    if a != i {
                        assert(entries@[a] == old_entries[a]);
                        assert(old_entries[a].key@ != kt);
                    }
                }
                assert forall|k: int| 0 <= k < np.len() implies exists|a: int| 0 <= a < entries@.len() && (#[trigger] entries@[a]).key@ == (#[trigger] np[k]).0 by {
                    if k < pairs.len() {
                        assert(np[k] == pairs[k]);
                        let a = choose|a: int| 0 <= a < old_entries.len() && (#[trigger] old_entries[a]).key@ == pairs[k].0;
                        assert(entries@[a].key@ == old_entries[a].key@);
                    } else {
                        assert(entries@[i as int].key@ == np[k].0);
                    }
                }
                assert forall|a: int, b: int| 0 <= a < b < entries@.len() implies entries@[a].key@ != entries@[b].key@ by {
                    assert(entries@[a].key@ == old_entries[a].key@);
                    assert(entries@[b].key@ == old_entries[b].key@);
                }
            }
        },
        None => {
            let mut matches: Vec<ReferenceMatch> = Vec::new();
            matches.push(m);
            let entry = ReferenceEntry { key, matches };
            proof {
                assert forall|k: int| 0 <= k < pairs.len() implies (#[trigger] pairs[k]).0 != kt by {
                    let a = choose|a: int| 0 <= a < old_entries.len() && (#[trigger] old_entries[a]).key@ == pairs[k].0;
                }
                lemma_matches_for_absent(pairs, kt);
                assert(match_views(entry.matches@) =~= seq![mv]);
            }
            entries.push(entry);
            proof {
                assert forall|a: int| 0 <= a < entries@.len() implies match_views((#[trigger] entries@[a]).matches@) == matches_for(np, entries@[a].key@) by {
                    if a < old_entries.len() {
                        assert(entries@[a] == old_entries[a]);
                    }
                }
                assert forall|k: int| 0 <= k < np.len() implies exists|a: int| 0 <= a < entries@.len() && (#[trigger] entries@[a]).key@ == (#[trigger] np[k]).0 by {
                    if k < pairs.len() {
                        assert(np[k] == pairs[k]);
                        let a = choose|a: int| 0 <= a < old_entries.len() && (#[trigger] old_entries[a]).key@ == pairs[k].0;
                        assert(entries@[a] == old_entries[a]);
                    } else {
                        assert(entries@[old_entries.len() as int].key@ == np[k].0);
                    }
                }
                assert forall|a: int, b: int| 0 <= a < b < entries@.len() implies entries@[a].key@ != entries@[b].key@ by {
                    if b < old_entries.len() {
                        assert(entries@[a] == old_entries[a]);
                        assert(entries@[b] == old_entries[b]);
                    } else {
                        assert(entries@[a] == old_entries[a]);
                    }
                }
            }
        },
    }
}

/// Number of keys carried by more than one reference file.
pub fn count_duplicates(entries: &Vec<ReferenceEntry>) -> (r: usize)
    ensures
        r == duplicate_count(entries@),
{
    let mut n: usize = 0;
    let mut i: usize = 0;
    while i < entries.len()
        invariant
            i <= entries@.len(),
            n == duplicate_count(entries@.subrange(0, i as int)),
            n <= i,
        decreases entries@.len() - i,
    {
        assert(entries@.subrange(0, i + 1).drop_last() =~= entries@.subrange(0, i as int));
        if entries[i].matches.len() > 1 {
            n = n + 1;
        }
        i = i + 1;
    }
    assert(entries@.subrange(0, entries@.len() as int) =~= entries@);
    n
}

/// The keyed reference files of a JPG directory listing, in listing order.
pub open spec fn directory_pairs(files: Seq<ListedFile>, case_sensitive: bool) -> Seq<(Seq<char>, MatchView)>
    decreases files.len(),
{
    if files.len() == 0 {
        seq![]
    } else {
        let rest = directory_pairs(files.drop_last(), case_sensitive);
        let f = files.last();
        if is_reference_path(f.relative_path@) {
            rest.push((group_key(f.relative_path@, case_sensitive), MatchView {
                display: forward_slashes(f.relative_path@),
                source: Some(listed_view(f)),
            }))
        } else {
            rest
        }
    }
}

/// Number of reference pictures in a listing.
pub open spec fn reference_count(files: Seq<ListedFile>) -> nat
    decreases files.len(),
{
    if files.len() == 0 {
        0
    } else {
        reference_count(files.drop_last()) + if is_reference_path(files.last().relative_path@) {
            1nat
        } else {
            0nat
        }
    }
}

/// Indexes the JPG pictures of a directory listing by pairing key. The listing
/// is taken in the order of lower-cased display paths.
pub fn directory_index(root: String, files: Vec<ListedFile>, case_sensitive: bool) -> (r: ReferenceIndex)
    ensures
        r.root matches Some(x) && x@ == root@,
        r.wf(),
        exists|sorted: Seq<ListedFile>| {
            &&& sorted.to_multiset() == files@.to_multiset()
            &&& listing_sorted(sorted)
            &&& indexes(r.entries@, directory_pairs(sorted, case_sensitive))
            &&& r.source_items == reference_count(sorted)
        },
        r.duplicate_keys == duplicate_count(r.entries@),
        r.source_items == match_total(r.entries@),
{
    let sorted = sort_listing(files);
    let mut entries: Vec<ReferenceEntry> = Vec::new();
    let mut count: usize = 0;
    let mut i: usize = 0;
    while i < sorted.len()
        invariant
            i <= sorted@.len(),
            indexes(entries@, directory_pairs(sorted@.subrange(0, i as int), case_sensitive)),
            count == reference_count(sorted@.subrange(0, i as int)),
            count <= i,
        decreases sorted@.len() - i,
    {
        let ghost pre = sorted@.subrange(0, i as int);
        let ghost next = sorted@.subrange(0, i + 1);
        assert(next.drop_last() =~= pre);
        let f = &sorted[i];
        if is_reference(f.relative_path.as_str()) {
            let key = match_key(f.relative_path.as_str(), case_sensitive);
            let shown = display_path(f.relative_path.as_str());
            let m = ReferenceMatch { display_path: shown, source: Some(copy_listed(f)) };
            add_match(&mut entries, key, m, Ghost(directory_pairs(pre, case_sensitive)));
            count = count + 1;
        }
        i = i + 1;
    }
    assert(sorted@.subrange(0, sorted@.len() as int) =~= sorted@);
    proof {
        lemma_indexed_total(entries@, directory_pairs(sorted@, case_sensitive));
        lemma_directory_pairs_count(sorted@, case_sensitive);
    }
    let duplicate_keys = count_duplicates(&entries);
    ReferenceIndex { root: Some(root), entries, source_items: count, duplicate_keys }
}

/// The keyed entries of a parsed manifest; manifest lines name no file.
pub open spec fn manifest_pairs(entries: Seq<(Seq<char>, Seq<char>)>) -> Seq<(Seq<char>, MatchView)> {
    entries.map_values(|e: (Seq<char>, Seq<char>)| (e.0, MatchView { display: e.1, source: None }))
}

/// Indexes a manifest text. Its lines must all be accepted (see
/// `parse_manifest_entries`).
pub fn manifest_index(input: &str, case_sensitive: bool) -> (r: Result<ReferenceIndex, String>)
    ensures
        match manifest_result(input@, case_sensitive) {
            Ok(es) => r matches Ok(index) && index.root is None && index.wf()
                && indexes(index.entries@, manifest_pairs(es))
                && index.source_items == es.len()
                && index.duplicate_keys == duplicate_count(index.entries@),
            Err(e) => r matches Err(msg) && msg@ == manifest_error_text(e),
        },
{
    let parsed = parse_manifest_entries(input, case_sensitive)?;
    let ghost ev = pair_views(parsed@);
    let n = parsed.len();
    let mut entries: Vec<ReferenceEntry> = Vec::new();
    let mut i: usize = 0;
    while i < n
        invariant
            i <= n,
            n == parsed@.len(),
            ev == pair_views(parsed@),
            indexes(entries@, manifest_pairs(ev.subrange(0, i as int))),
        decreases n - i,
    {
        let key = parsed[i].0.clone();
        let shown = parsed[i].1.clone();
        let m = ReferenceMatch { display_path: shown, source: None };
        proof {
            assert(manifest_pairs(ev.subrange(0, i + 1)) =~= manifest_pairs(ev.subrange(0, i as int)).push((key@, m.view())));
        }
        add_match(&mut entries, key, m, Ghost(manifest_pairs(ev.subrange(0, i as int))));
        i = i + 1;
    }
    assert(ev.subrange(0, n as int) =~= ev);
    let duplicate_keys = count_duplicates(&entries);
    Ok(ReferenceIndex { root: None, entries, source_items: n, duplicate_keys })
}

/// A sidecar of an XMP rating source with the rating read from it (`None`
/// when the XMP carries no rating).
#[derive(Debug)]
pub struct RatedSidecar {
    pub file: ListedFile,
    pub rating: Option<i8>,
}

/// A sidecar with the rating read from its bytes by `reference_xmp_rating`.
pub fn rate_sidecar(file: ListedFile, input: &[u8]) -> (r: Result<RatedSidecar, String>)
    ensures
        match reference_rating(input@) {
            Ok(v) => r matches Ok(s) && s.file == file && opt_rating(s.rating) == v,
            Err(e) => r matches Err(m) && m@ == e,
        },
{
    let rating = reference_xmp_rating(input)?;
    Ok(RatedSidecar { file, rating })
}

/// A rated sidecar is kept when its rating reaches the minimum.
pub open spec fn rating_kept(rating: Option<i8>, minimum_rating: u8) -> bool {
    rating matches Some(x) && x as int >= minimum_rating as int
}

/// The keyed matches one kept sidecar contributes: one per key it may pair with.
pub open spec fn sidecar_pairs(f: ListedFile, case_sensitive: bool) -> Seq<(Seq<char>, MatchView)> {
    sidecar_keys(f.relative_path@, case_sensitive).map_values(|k: Seq<char>| (k, MatchView {
        display: forward_slashes(f.relative_path@),
        source: Some(listed_view(f)),
    }))
}

pub open spec fn xmp_pairs(rated: Seq<RatedSidecar>, minimum_rating: u8, case_sensitive: bool) -> Seq<(Seq<char>, MatchView)>
    decreases rated.len(),
{
    if rated.len() == 0 {
        seq![]
    } else {
        let rest = xmp_pairs(rated.drop_last(), minimum_rating, case_sensitive);
        if rating_kept(rated.last().rating, minimum_rating) {
            rest + sidecar_pairs(rated.last().file, case_sensitive)
        } else {
            rest
        }
    }
}

pub open spec fn kept_count(rated: Seq<RatedSidecar>, minimum_rating: u8) -> nat
    decreases rated.len(),
{
    if rated.len() == 0 {
        0
    } else {
        kept_count(rated.drop_last(), minimum_rating) + if rating_kept(rated.last().rating, minimum_rating) {
            1nat
        } else {
            0nat
        }
    }
}

/// Indexes the sidecars, in the order given, whose rating reaches
/// `minimum_rating`; each is filed under every key it may pair with.
pub fn xmp_index(root: String, rated: Vec<RatedSidecar>, minimum_rating: u8, case_sensitive: bool) -> (r: ReferenceIndex)
    ensures
        r.root matches Some(x) && x@ == root@,
        r.wf(),
        indexes(r.entries@, xmp_pairs(rated@, minimum_rating, case_sensitive)),
        r.source_items == kept_count(rated@, minimum_rating),
        r.duplicate_keys == duplicate_count(r.entries@),
{
    let mut entries: Vec<ReferenceEntry> = Vec::new();
    let mut count: usize = 0;
    let mut i: usize = 0;
    while i < rated.len()
        invariant
            i <= rated@.len(),
            indexes(entries@, xmp_pairs(rated@.subrange(0, i as int), minimum_rating, case_sensitive)),
            count == kept_count(rated@.subrange(0, i as int), minimum_rating),
            count <= i,
        decreases rated@.len() - i,
    {
        let ghost pre = rated@.subrange(0, i as int);
        let ghost next = rated@.subrange(0, i + 1);
        assert(next.drop_last() =~= pre);
        let item = &rated[i];
        let kept = match item.rating {
            Some(x) => x as i16 >= minimum_rating as i16,
            None => false,
        };
        if kept {
            let path = item.file.relative_path.as_str();
            let shown = display_path(path);
            let keys = sidecar_match_keys(path, case_sensitive);
            let ghost base = xmp_pairs(pre, minimum_rating, case_sensitive);
            let ghost extra = sidecar_pairs(item.file, case_sensitive);
            let mut k: usize = 0;
            while k < keys.len()
                invariant
                    k <= keys@.len(),
                    keys@.map_values(|x: String| x@) == sidecar_keys(item.file.relative_path@, case_sensitive),
                    extra.len() == keys@.len(),
                    extra == sidecar_pairs(item.file, case_sensitive),
                    shown@ == forward_slashes(item.file.relative_path@),
                    indexes(entries@, base + extra.subrange(0, k as int)),
                decreases keys@.len() - k,
            {
                let m = ReferenceMatch { display_path: shown.clone(), source: Some(copy_listed(&item.file)) };
                let key = keys[k].clone();
                proof {
                    assert(extra[k as int] == (key@, m.view()));
                    assert(base + extra.subrange(0, k + 1) =~= (base + extra.subrange(0, k as int)).push((key@, m.view())));
                }
                add_match(&mut entries, key, m, Ghost(base + extra.subrange(0, k as int)));
                k = k + 1;
            }
            assert(extra.subrange(0, extra.len() as int) =~= extra);
            count = count + 1;
        }
        i = i + 1;
    }
    assert(rated@.subrange(0, rated@.len() as int) =~= rated@);
    let duplicate_keys = count_duplicates(&entries);
    ReferenceIndex { root: Some(root), entries, source_items: count, duplicate_keys }
}

/// The minimum star rating of an XMP source must be 1 to 5.
pub fn validate_minimum_rating(minimum_rating: u8) -> (r: Result<(), String>)
    ensures
        r is Ok <==> 1 <= minimum_rating <= 5,
        r matches Err(e) ==> e@ == "最低 XMP 星级必须在 1 到 5 之间"@,
{
    if !(1 <= minimum_rating && minimum_rating <= 5) {
        return Err("最低 XMP 星级必须在 1 到 5 之间".to_owned());
    }
    Ok(())
}

/// A manifest must be a regular `.txt` file.
pub fn check_manifest_path(path: &str, is_file: bool) -> (r: Result<(), String>)
    ensures
        r is Ok <==> is_file && crate::formats::ext_key(path@) == "txt"@,
        r matches Err(e) ==> e@ == "文件清单必须是 .txt 普通文件"@,
{
    let extension = extension_of(path);
    let ev = chars_of(extension.as_str());
    if !is_file || !crate::text::chars_eq_str(&ev, "txt") {
        return Err("文件清单必须是 .txt 普通文件".to_owned());
    }
    Ok(())
}

/// A manifest is read only up to 8 MiB.
pub fn check_manifest_size(len: u64) -> (r: Result<(), String>)
    ensures
        r is Ok <==> len <= MAX_MANIFEST_BYTES,
        r matches Err(e) ==> e@ == "文件清单超过 8 MiB 上限"@,
{
    if len > MAX_MANIFEST_BYTES {
        return Err("文件清单超过 8 MiB 上限".to_owned());
    }
    Ok(())
}

/// An XMP sidecar is read only up to 4 MiB; `shown` names it in the error.
pub fn check_xmp_size(len: u64, shown: &str) -> (r: Result<(), String>)
    ensures
        r is Ok <==> len <= MAX_XMP_BYTES,
        r matches Err(e) ==> e@ == "XMP 文件超过 4 MiB 上限："@ + shown@,
{
    if len > MAX_XMP_BYTES {
        return Err(crate::text::concat("XMP 文件超过 4 MiB 上限：", shown));
    }
    Ok(())
}

/// An XMP-rating index keeps a sidecar exactly when it has a rating of at
/// least the minimum: such a sidecar adds its keyed matches and counts once;
/// a lower or missing rating adds nothing.
pub proof fn xmp_index_keeps_ratings_at_or_above_minimum(rated: Seq<RatedSidecar>, s: RatedSidecar, minimum_rating: u8, case_sensitive: bool)
    ensures
        (s.rating is Some && s.rating->0 as int >= minimum_rating as int) ==> kept_count(rated.push(s), minimum_rating)
            == kept_count(rated, minimum_rating) + 1 && xmp_pairs(rated.push(s), minimum_rating, case_sensitive)
            == xmp_pairs(rated, minimum_rating, case_sensitive) + sidecar_pairs(s.file, case_sensitive),
        !(s.rating is Some && s.rating->0 as int >= minimum_rating as int) ==> kept_count(rated.push(s), minimum_rating)
            == kept_count(rated, minimum_rating) && xmp_pairs(rated.push(s), minimum_rating, case_sensitive)
            == xmp_pairs(rated, minimum_rating, case_sensitive),
{
    assert(rated.push(s).drop_last() =~= rated);
    assert(rated.push(s).last() == s);
}

} // verus!
