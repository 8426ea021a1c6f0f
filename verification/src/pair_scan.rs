//! Pair scanning: compares a reference source with a RAW directory and
//! reports which RAW files have lost their kept picture, with the sidecars
//! that go with them. This is the single source of truth for cleanup plans.

use vstd::prelude::*;
use crate::formats::{
    group_key, is_raw, is_raw_path, is_sidecar, is_sidecar_path, photo_group_key, sidecar_keys,
    sidecar_match_keys,
};
use crate::paths::{
    display_path, extension_text, file_name, file_name_text, has_extension, has_file_name,
    path_has_prefix, path_starts_with, name_parts,
};
use crate::reference::{
    FileFacts, ListedFile, ReferenceEntry, ReferenceIndex, ReferenceMatch, ReferenceSource, distinct_keys, match_total,
    copy_listed, find_entry, listing_key, listing_sorted, pair_views, sort_listing,
};
use crate::quarantine::{in_quarantine_dir, is_in_quarantine_dir};
use crate::sorting::{Keyed, into_values, keys_sorted, sort_keyed, values_of};
use crate::text::{
    chars_eq, chars_of, concat, concat3, decimal, decimal_text, forward_slashes, lowercase, push_char,
    string_of, text_le, unicode_lowercase,
};

verus! {

broadcast use vstd::seq_lib::group_to_multiset_ensures;

/// What a scan is for.
#[derive(Debug, Clone, Copy, PartialEq, Eq, Structural)]
pub enum ScanMode {
    /// Find RAW files whose kept picture is gone.
    CleanupRaw,
    /// Find kept pictures whose RAW is gone.
    AuditReference,
}

#[derive(Debug, Clone, Copy, PartialEq, Eq, Structural)]
pub enum MatchStatus {
    Matched,
    Unmatched,
}

#[derive(Debug, Clone, Copy, PartialEq, Eq, Structural)]
pub enum FileKind {
    Raw,
    Reference,
    Sidecar,
}

/// A scan request as the interface sends it.
#[derive(Debug)]
pub struct ScanRequest {
    pub reference_source: ReferenceSource,
    pub raw_root: String,
    pub case_sensitive: bool,
    pub mode: ScanMode,
}

/// One file in a scan result.
#[derive(Debug)]
pub struct ScanItem {
    pub id: String,
    pub relative_path: String,
    pub file_name: String,
    pub extension: String,
    pub size_bytes: u64,
    pub modified_ms: Option<u64>,
    pub match_status: MatchStatus,
    pub kind: FileKind,
    pub matched_path: Option<String>,
}

/// The result of a scan.
#[derive(Debug)]
pub struct ScanSummary {
    pub plan_id: String,
    pub mode: ScanMode,
    pub reference_files: usize,
    pub raw_files: usize,
    pub matched: usize,
    pub unmatched: usize,
    pub sidecars: usize,
    pub reclaimable_bytes: u64,
    pub duplicate_reference_keys: usize,
    pub scanned_at_ms: u64,
    pub warnings: Vec<String>,
    pub items: Vec<ScanItem>,
}

/// What the file system gave for a scan: the canonical RAW root, every file
/// under it (outside the quarantine directory), the reference index, and the
/// scan time.
#[derive(Debug)]
pub struct ScanInputs {
    pub raw_root: String,
    pub raw_files: Vec<ListedFile>,
    pub reference: ReferenceIndex,
    pub scanned_at_ms: u64,
}

pub struct ItemView {
    pub id: Seq<char>,
    pub relative_path: Seq<char>,
    pub file_name: Seq<char>,
    pub extension: Seq<char>,
    pub size_bytes: u64,
    pub modified_ms: Option<u64>,
    pub match_status: MatchStatus,
    pub kind: FileKind,
    pub matched_path: Option<Seq<char>>,
}

impl ScanItem {
    pub open spec fn view(&self) -> ItemView {
        ItemView {
            id: self.id@,
            relative_path: self.relative_path@,
            file_name: self.file_name@,
            extension: self.extension@,
            size_bytes: self.size_bytes,
            modified_ms: self.modified_ms,
            match_status: self.match_status,
            kind: self.kind,
            matched_path: match self.matched_path {
                Some(p) => Some(p@),
                None => None,
            },
        }
    }
}

pub open spec fn item_views(s: Seq<ScanItem>) -> Seq<ItemView> {
    s.map_values(|i: ScanItem| i.view())
}

pub open spec fn kind_prefix(kind: FileKind) -> Seq<char> {
    match kind {
        FileKind::Raw => "raw"@,
        FileKind::Reference => "reference"@,
        FileKind::Sidecar => "sidecar"@,
    }
}

/// The item that describes the file at relative path `path`.
pub open spec fn item_spec(
    path: Seq<char>,
    facts: FileFacts,
    status: MatchStatus,
    kind: FileKind,
    matched: Option<Seq<char>>,
) -> ItemView {
    let shown = forward_slashes(path);
    ItemView {
        id: kind_prefix(kind) + ":"@ + shown,
        relative_path: shown,
        file_name: if has_file_name(path) {
            file_name_text(path)
        } else {
            seq![]
        },
        extension: if has_extension(path) {
            "."@ + extension_text(path)
        } else {
            seq![]
        },
        size_bytes: facts.size_bytes,
        modified_ms: facts.modified_ms,
        match_status: status,
        kind,
        matched_path: matched,
    }
}

pub fn copy_opt_string(s: &Option<String>) -> (r: Option<String>)
    ensures
        match *s {
            Some(x) => r matches Some(y) && y@ == x@,
            None => r is None,
        },
{
    match s {
        Some(x) => Some(x.clone()),
        None => None,
    }
}

/// Builds the item for the file at `relative_path` with the given facts; an
/// unreadable file fails the scan with its error.
pub fn scan_item(
    relative_path: &str,
    facts: &Result<FileFacts, String>,
    match_status: MatchStatus,
    kind: FileKind,
    matched_path: Option<String>,
) -> (r: Result<ScanItem, String>)
    ensures
        match *facts {
            Ok(f) => r matches Ok(item) && item.view() == item_spec(
                relative_path@,
                f,
                match_status,
                kind,
                match matched_path {
                    Some(p) => Some(p@),
                    None => None,
                },
            ),
            Err(e) => r matches Err(x) && x@ == e@,
        },
{
    let f = match facts {
        Ok(f) => *f,
        Err(e) => return Err(e.clone()),
    };
    let shown = display_path(relative_path);
    let prefix = match kind {
        FileKind::Raw => "raw",
        FileKind::Reference => "reference",
        FileKind::Sidecar => "sidecar",
    };
    let mut id = concat(prefix, ":");
    id.append(shown.as_str());
    let name = match file_name(relative_path) {
        Some(n) => n,
        None => String::new(),
    };
    let v = chars_of(relative_path);
    let parts = name_parts(&v);
    let extension = if parts.has_ext {
        let mut e = String::new();
        push_char(&mut e, '.');
        let tail = crate::text::slice_chars(&v, parts.dot + 1, parts.end);
        let t = string_of(tail.as_slice());
        e.append(t.as_str());
        proof {
            assert(e@ =~= "."@ + extension_text(relative_path@)) by {
                reveal_strlit(".");
            }
        }
        e
    } else {
        String::new()
    };
    Ok(ScanItem {
        id,
        relative_path: shown,
        file_name: name,
        extension,
        size_bytes: f.size_bytes,
        modified_ms: f.modified_ms,
        match_status,
        kind,
        matched_path,
    })
}

// ---------------------------------------------------------------------------
// Scanning
// ---------------------------------------------------------------------------
pub open spec fn opt_view(o: Option<String>) -> Option<Seq<char>> {
    match o {
        Some(x) => Some(x@),
        None => None,
    }
}

/// The facts of a readable file (and nothing in particular otherwise).
pub open spec fn ok_facts(f: Result<FileFacts, String>) -> FileFacts {
    match f {
        Ok(x) => x,
        Err(_) => FileFacts { size_bytes: 0, modified_ms: None },
    }
}

pub open spec fn status_of(m: Option<Seq<char>>) -> MatchStatus {
    if m is Some {
        MatchStatus::Matched
    } else {
        MatchStatus::Unmatched
    }
}

/// Some entry of the index is filed under `key`.
pub open spec fn has_entry(entries: Seq<ReferenceEntry>, key: Seq<char>) -> bool {
    exists|i: int| 0 <= i < entries.len() && (#[trigger] entries[i]).key@ == key
}

/// The display path of the first reference file filed under `key`.
pub open spec fn reference_match(entries: Seq<ReferenceEntry>, key: Seq<char>) -> Option<Seq<char>> {
    if has_entry(entries, key) {
        let i = choose|i: int| 0 <= i < entries.len() && (#[trigger] entries[i]).key@ == key;
        Some(entries[i].matches@[0].display_path@)
    } else {
        None
    }
}

/// Pairing key and display path of each RAW file of a listing, in order.
pub open spec fn raw_pairs(files: Seq<ListedFile>, case_sensitive: bool) -> Seq<(Seq<char>, Seq<char>)>
    decreases files.len(),
{
    if files.len() == 0 {
        seq![]
    } else {
        let rest = raw_pairs(files.drop_last(), case_sensitive);
        let p = files.last().relative_path@;
        if is_raw_path(p) {
            rest.push((group_key(p, case_sensitive), forward_slashes(p)))
        } else {
            rest
        }
    }
}

/// Display path of the first RAW file, in order, whose key is `key`.
pub open spec fn first_display(pairs: Seq<(Seq<char>, Seq<char>)>, key: Seq<char>) -> Option<Seq<char>>
    decreases pairs.len(),
{
    if pairs.len() == 0 {
        None
    } else {
        let rest = first_display(pairs.drop_last(), key);
        if rest is Some {
            rest
        } else if pairs.last().0 == key {
            Some(pairs.last().1)
        } else {
            None
        }
    }
}

/// The item of a RAW file in a cleanup scan.
pub open spec fn raw_item(f: ListedFile, entries: Seq<ReferenceEntry>, case_sensitive: bool) -> ItemView {
    let m = reference_match(entries, group_key(f.relative_path@, case_sensitive));
    item_spec(f.relative_path@, ok_facts(f.facts), status_of(m), FileKind::Raw, m)
}

/// The items of the RAW files of a listing, in order.
pub open spec fn raw_items(files: Seq<ListedFile>, entries: Seq<ReferenceEntry>, case_sensitive: bool) -> Seq<ItemView>
    decreases files.len(),
{
    if files.len() == 0 {
        seq![]
    } else {
        let rest = raw_items(files.drop_last(), entries, case_sensitive);
        if is_raw_path(files.last().relative_path@) {
            rest.push(raw_item(files.last(), entries, case_sensitive))
        } else {
            rest
        }
    }
}

/// The error of the first RAW file, in order, whose facts could not be read.
pub open spec fn raw_error(files: Seq<ListedFile>) -> Option<Seq<char>>
    decreases files.len(),
{
    if files.len() == 0 {
        None
    } else {
        let rest = raw_error(files.drop_last());
        if rest is Some {
            rest
        } else if is_raw_path(files.last().relative_path@) {
            match files.last().facts {
                Err(e) => Some(e@),
                Ok(_) => None,
            }
        } else {
            None
        }
    }
}

/// Number of items with the given status.
pub open spec fn status_count(items: Seq<ItemView>, status: MatchStatus) -> nat
    decreases items.len(),
{
    if items.len() == 0 {
        0
    } else {
        status_count(items.drop_last(), status) + if items.last().match_status == status {
            1nat
        } else {
            0nat
        }
    }
}

/// Total size of the unmatched items.
pub open spec fn unmatched_bytes(items: Seq<ItemView>) -> nat
    decreases items.len(),
{
    if items.len() == 0 {
        0
    } else {
        unmatched_bytes(items.drop_last()) + if items.last().match_status == MatchStatus::Unmatched {
            items.last().size_bytes as nat
        } else {
            0nat
        }
    }
}

/// A byte total as a `u64`, saturating.
pub open spec fn saturated(n: int) -> u64 {
    if n > u64::MAX {
        u64::MAX
    } else {
        n as u64
    }
}

/// A key is missing when some RAW file carries it and no reference file does.
pub open spec fn key_missing(
    pairs: Seq<(Seq<char>, Seq<char>)>,
    entries: Seq<ReferenceEntry>,
    key: Seq<char>,
) -> bool {
    first_display(pairs, key) is Some && !has_entry(entries, key)
}

/// Number of keys of `keys` that are missing.
pub open spec fn missing_count(
    keys: Seq<Seq<char>>,
    pairs: Seq<(Seq<char>, Seq<char>)>,
    entries: Seq<ReferenceEntry>,
) -> nat
    decreases keys.len(),
{
    if keys.len() == 0 {
        0
    } else {
        missing_count(keys.drop_last(), pairs, entries) + if key_missing(pairs, entries, keys.last()) {
            1nat
        } else {
            0nat
        }
    }
}

/// How many times a file is exposed as the sidecar of a missing RAW: once
/// for each of its pairing keys that is missing.
pub open spec fn sidecar_copies(
    f: ListedFile,
    pairs: Seq<(Seq<char>, Seq<char>)>,
    entries: Seq<ReferenceEntry>,
    case_sensitive: bool,
) -> nat {
    if is_sidecar_path(f.relative_path@) {
        missing_count(sidecar_keys(f.relative_path@, case_sensitive), pairs, entries)
    } else {
        0
    }
}

pub open spec fn sidecar_item(f: ListedFile) -> ItemView {
    item_spec(f.relative_path@, ok_facts(f.facts), MatchStatus::Unmatched, FileKind::Sidecar, None)
}

/// The sidecar items of a listing, in order.
pub open spec fn sidecar_items(
    files: Seq<ListedFile>,
    pairs: Seq<(Seq<char>, Seq<char>)>,
    entries: Seq<ReferenceEntry>,
    case_sensitive: bool,
) -> Seq<ItemView>
    decreases files.len(),
{
    if files.len() == 0 {
        seq![]
    } else {
        let f = files.last();
        sidecar_items(files.drop_last(), pairs, entries, case_sensitive) + Seq::new(
            sidecar_copies(f, pairs, entries, case_sensitive),
            |_i: int| sidecar_item(f),
        )
    }
}

/// The error of the first exposed sidecar, in order, whose facts could not be read.
pub open spec fn sidecar_error(
    files: Seq<ListedFile>,
    pairs: Seq<(Seq<char>, Seq<char>)>,
    entries: Seq<ReferenceEntry>,
    case_sensitive: bool,
) -> Option<Seq<char>>
    decreases files.len(),
{
    if files.len() == 0 {
        None
    } else {
        let rest = sidecar_error(files.drop_last(), pairs, entries, case_sensitive);
        if rest is Some {
            rest
        } else if sidecar_copies(files.last(), pairs, entries, case_sensitive) > 0 {
            match files.last().facts {
                Err(e) => Some(e@),
                Ok(_) => None,
            }
        } else {
            None
        }
    }
}

proof fn lemma_raw_error_prefix(files: Seq<ListedFile>, n: int)
    requires
        0 <= n <= files.len(),
        raw_error(files.subrange(0, n)) is Some,
    ensures
        raw_error(files) == raw_error(files.subrange(0, n)),
    decreases files.len(),
{
    if n < files.len() {
        assert(files.drop_last().subrange(0, n) =~= files.subrange(0, n));
        lemma_raw_error_prefix(files.drop_last(), n);
    } else {
        assert(files.subrange(0, n) =~= files);
    }
}

proof fn lemma_first_display_prefix(pairs: Seq<(Seq<char>, Seq<char>)>, n: int, key: Seq<char>)
    requires
        0 <= n <= pairs.len(),
        first_display(pairs.subrange(0, n), key) is Some,
    ensures
        first_display(pairs, key) == first_display(pairs.subrange(0, n), key),
    decreases pairs.len(),
{
    if n < pairs.len() {
        assert(pairs.drop_last().subrange(0, n) =~= pairs.subrange(0, n));
        lemma_first_display_prefix(pairs.drop_last(), n, key);
    } else {
        assert(pairs.subrange(0, n) =~= pairs);
    }
}

proof fn lemma_sidecar_error_prefix(
    files: Seq<ListedFile>,
    n: int,
    pairs: Seq<(Seq<char>, Seq<char>)>,
    entries: Seq<ReferenceEntry>,
    case_sensitive: bool,
)
    requires
        0 <= n <= files.len(),
        sidecar_error(files.subrange(0, n), pairs, entries, case_sensitive) is Some,
    ensures
        sidecar_error(files, pairs, entries, case_sensitive) == sidecar_error(
            files.subrange(0, n),
            pairs,
            entries,
            case_sensitive,
        ),
    decreases files.len(),
{
    if n < files.len() {
        assert(files.drop_last().subrange(0, n) =~= files.subrange(0, n));
        lemma_sidecar_error_prefix(files.drop_last(), n, pairs, entries, case_sensitive);
    } else {
        assert(files.subrange(0, n) =~= files);
    }
}

/// Pairing key and display path of each RAW file of a listing.
fn raw_pairs_of(files: &Vec<ListedFile>, case_sensitive: bool) -> (r: Vec<(String, String)>)
    ensures
        pair_views(r@) == raw_pairs(files@, case_sensitive),
{
    let mut out: Vec<(String, String)> = Vec::new();
    let mut i: usize = 0;
    while i < files.len()
        invariant
            i <= files@.len(),
            pair_views(out@) == raw_pairs(files@.subrange(0, i as int), case_sensitive),
        decreases files@.len() - i,
    {
        let ghost pre = files@.subrange(0, i as int);
        assert(files@.subrange(0, i + 1).drop_last() =~= pre);
        let path = files[i].relative_path.as_str();
        if is_raw(path) {
            let key = photo_group_key(path, case_sensitive);
            let shown = display_path(path);
            let ghost before = out@;
            out.push((key, shown));
            assert(pair_views(out@) =~= pair_views(before).push((group_key(path@, case_sensitive), forward_slashes(path@))));
        }
        i = i + 1;
    }
    assert(files@.subrange(0, files@.len() as int) =~= files@);
    out
}

/// Display path of the first RAW file whose key is `key`.
fn first_display_of(pairs: &Vec<(String, String)>, key: &Vec<char>) -> (r: Option<String>)
    ensures
        opt_view(r) == first_display(pair_views(pairs@), key@),
{
    let ghost pv = pair_views(pairs@);
    let mut i: usize = 0;
    while i < pairs.len()
        invariant
            i <= pairs@.len(),
            pv == pair_views(pairs@),
            first_display(pv.subrange(0, i as int), key@) is None,
        decreases pairs@.len() - i,
    {
        assert(pv.subrange(0, i + 1).drop_last() =~= pv.subrange(0, i as int));
        let k = chars_of(pairs[i].0.as_str());
        if chars_eq(&k, key) {
            proof {
                lemma_first_display_prefix(pv, i + 1, key@);
            }
            return Some(pairs[i].1.clone());
        }
        i = i + 1;
    }
    assert(pv.subrange(0, pv.len() as int) =~= pv);
    None
}

/// Display path of the first reference file filed under `key`.
fn reference_match_for(entries: &Vec<ReferenceEntry>, key: &Vec<char>) -> (r: Option<String>)
    requires
        distinct_keys(entries@),
        forall|i: int| 0 <= i < entries@.len() ==> (#[trigger] entries@[i]).matches@.len() > 0,
    ensures
        opt_view(r) == reference_match(entries@, key@),
{
    match find_entry(entries, key) {
        Some(i) => {
            proof {
                assert(has_entry(entries@, key@));
                let j = choose|j: int| 0 <= j < entries@.len() && (#[trigger] entries@[j]).key@ == key@;
                if j != i {
                    if j < i {
                        assert(entries@[j].key@ != entries@[i as int].key@);
                    } else {
                        assert(entries@[i as int].key@ != entries@[j].key@);
                    }
                }
            }
            assert(entries@[i as int].matches@.len() > 0);
            Some(entries[i].matches[0].display_path.clone())
        },
        None => None,
    }
}

/// Whether `key` is carried by a RAW file and by no reference file.
fn key_is_missing(pairs: &Vec<(String, String)>, entries: &Vec<ReferenceEntry>, key: &Vec<char>) -> (r: bool)
    ensures
        r == key_missing(pair_views(pairs@), entries@, key@),
{
    match first_display_of(pairs, key) {
        Some(_) => match find_entry(entries, key) {
            Some(_) => false,
            None => true,
        },
        None => false,
    }
}

/// Items of the RAW files of a cleanup scan, with the matched and unmatched
/// counts and the saturated size of the unmatched ones.
fn raw_phase(files: &Vec<ListedFile>, entries: &Vec<ReferenceEntry>, case_sensitive: bool) -> (r: Result<
    (Vec<ScanItem>, usize, usize, u64),
    String,
>)
    requires
        distinct_keys(entries@),
        forall|i: int| 0 <= i < entries@.len() ==> (#[trigger] entries@[i]).matches@.len() > 0,
    ensures
        match raw_error(files@) {
            Some(e) => r matches Err(m) && m@ == e,
            None => r matches Ok((items, matched, unmatched, bytes)) && {
                let expected = raw_items(files@, entries@, case_sensitive);
                &&& item_views(items@) == expected
                &&& matched == status_count(expected, MatchStatus::Matched)
                &&& unmatched == status_count(expected, MatchStatus::Unmatched)
                &&& bytes == saturated(unmatched_bytes(expected) as int)
            },
        },
{
    let mut items: Vec<ScanItem> = Vec::new();
    let mut matched: usize = 0;
    let mut unmatched: usize = 0;
    let mut bytes: u64 = 0;
    let mut i: usize = 0;
    while i < files.len()
        invariant
            i <= files@.len(),
            distinct_keys(entries@),
            forall|k: int| 0 <= k < entries@.len() ==> (#[trigger] entries@[k]).matches@.len() > 0,
            raw_error(files@.subrange(0, i as int)) is None,
            item_views(items@) == raw_items(files@.subrange(0, i as int), entries@, case_sensitive),
            matched == status_count(item_views(items@), MatchStatus::Matched),
            unmatched == status_count(item_views(items@), MatchStatus::Unmatched),
            matched + unmatched == items@.len(),
            items@.len() <= i,
            bytes == saturated(unmatched_bytes(item_views(items@)) as int),
        decreases files@.len() - i,
    {
        let ghost pre = files@.subrange(0, i as int);
        let ghost next = files@.subrange(0, i + 1);
        assert(next.drop_last() =~= pre);
        let f = &files[i];
        let path = f.relative_path.as_str();
        if is_raw(path) {
            let key = photo_group_key(path, case_sensitive);
            let kv = chars_of(key.as_str());
            let m = reference_match_for(entries, &kv);
            let status = match m {
                Some(_) => MatchStatus::Matched,
                None => MatchStatus::Unmatched,
            };
            match scan_item(path, &f.facts, status, FileKind::Raw, m) {
                Ok(item) => {
                    let ghost before = item_views(items@);
                    let size = item.size_bytes;
                    items.push(item);
                    assert(item_views(items@) =~= before.push(raw_item(*f, entries@, case_sensitive)));
                    assert(item_views(items@).drop_last() =~= before);
                    if status == MatchStatus::Matched {
                        matched = matched + 1;
                    } else {
                        unmatched = unmatched + 1;
                        bytes = bytes.saturating_add(size);
                    }
                },
                Err(e) => {
                    proof {
                        lemma_raw_error_prefix(files@, i + 1);
                    }
                    return Err(e);
                },
            }
        }
        i = i + 1;
    }
    assert(files@.subrange(0, files@.len() as int) =~= files@);
    Ok((items, matched, unmatched, bytes))
}

/// Number of the keys that are missing.
fn missing_keys(pairs: &Vec<(String, String)>, entries: &Vec<ReferenceEntry>, keys: &Vec<String>) -> (r: usize)
    ensures
        r == missing_count(keys@.map_values(|k: String| k@), pair_views(pairs@), entries@),
        r <= keys@.len(),
{
    let ghost kv = keys@.map_values(|k: String| k@);
    let mut n: usize = 0;
    let mut j: usize = 0;
    while j < keys.len()
        invariant
            j <= keys@.len(),
            kv == keys@.map_values(|k: String| k@),
            n == missing_count(kv.subrange(0, j as int), pair_views(pairs@), entries@),
            n <= j,
        decreases keys@.len() - j,
    {
        assert(kv.subrange(0, j + 1).drop_last() =~= kv.subrange(0, j as int));
        let k = chars_of(keys[j].as_str());
        if key_is_missing(pairs, entries, &k) {
            n = n + 1;
        }
        j = j + 1;
    }
    assert(kv.subrange(0, keys@.len() as int) =~= kv);
    n
}

/// Appends the sidecars of missing RAW files to `items`, adding their sizes
/// to `bytes` (saturating). Gives the new items, the number of sidecar items
/// and the new total.
fn sidecar_phase(
    files: &Vec<ListedFile>,
    entries: &Vec<ReferenceEntry>,
    pairs: &Vec<(String, String)>,
    case_sensitive: bool,
    items: Vec<ScanItem>,
    bytes: u64,
) -> (r: Result<(Vec<ScanItem>, usize, u64), String>)
    ensures
        match sidecar_error(files@, pair_views(pairs@), entries@, case_sensitive) {
            Some(e) => r matches Err(m) && m@ == e,
            None => r matches Ok((out, count, total)) && {
                let added = sidecar_items(files@, pair_views(pairs@), entries@, case_sensitive);
                &&& item_views(out@) == item_views(items@) + added
                &&& count == added.len()
                &&& total == saturated(bytes + unmatched_bytes(added))
            },
        },
{
    let ghost pv = pair_views(pairs@);
    let ghost base = item_views(items@);
    let mut out = items;
    let mut count: usize = 0;
    let mut total: u64 = bytes;
    let mut i: usize = 0;
    while i < files.len()
        invariant
            i <= files@.len(),
            pv == pair_views(pairs@),
            sidecar_error(files@.subrange(0, i as int), pv, entries@, case_sensitive) is None,
            item_views(out@) == base + sidecar_items(files@.subrange(0, i as int), pv, entries@, case_sensitive),
            count == sidecar_items(files@.subrange(0, i as int), pv, entries@, case_sensitive).len(),
            count + base.len() == out@.len(),
            total == saturated(bytes + unmatched_bytes(sidecar_items(files@.subrange(0, i as int), pv, entries@, case_sensitive))),
        decreases files@.len() - i,
    {
        let ghost pre = files@.subrange(0, i as int);
        let ghost next = files@.subrange(0, i + 1);
        assert(next.drop_last() =~= pre);
        let f = &files[i];
        let path = f.relative_path.as_str();
        let copies: usize = if is_sidecar(path) {
            let keys = sidecar_match_keys(path, case_sensitive);
            missing_keys(pairs, entries, &keys)
        } else {
            0
        };
        assert(copies == sidecar_copies(*f, pv, entries@, case_sensitive));
        if copies > 0 {
            if let Err(e) = &f.facts {
                proof {
                    lemma_sidecar_error_prefix(files@, i + 1, pv, entries@, case_sensitive);
                }
                return Err(e.clone());
            }
        }
        let ghost prev = item_views(out@);
        let ghost done = sidecar_items(pre, pv, entries@, case_sensitive);
        let ghost one = sidecar_item(*f);
        let mut t: usize = 0;
        while t < copies
            invariant
                t <= copies,
                copies > 0 ==> f.facts is Ok,
                path@ == f.relative_path@,
                item_views(out@) == prev + Seq::new(t as nat, |_k: int| one),
                one == sidecar_item(*f),
                count + base.len() == out@.len(),
                count == done.len() + t,
                total == saturated(bytes + unmatched_bytes(done + Seq::new(t as nat, |_k: int| one))),
            decreases copies - t,
        {
            match scan_item(path, &f.facts, MatchStatus::Unmatched, FileKind::Sidecar, None) {
                Ok(item) => {
                    let size = item.size_bytes;
                    let ghost before = item_views(out@);
                    out.push(item);
                    proof {
                        assert(item_views(out@) =~= before.push(one));
                        assert(Seq::new((t + 1) as nat, |_k: int| one) =~= Seq::new(t as nat, |_k: int| one).push(one));
                        assert(prev + Seq::new((t + 1) as nat, |_k: int| one) =~= (prev + Seq::new(t as nat, |_k: int| one)).push(one));
                        let d0 = done + Seq::new(t as nat, |_k: int| one);
                        let d1 = done + Seq::new((t + 1) as nat, |_k: int| one);
                        assert(d1 =~= d0.push(one));
                        assert(d1.drop_last() =~= d0);
                    }
                    let _len = out.len();
                    count = count + 1;
                    total = total.saturating_add(size);
                },
                Err(e) => {
                    return Err(e);
                },
            }
            t = t + 1;
        }
        proof {
            assert(sidecar_items(next, pv, entries@, case_sensitive) =~= done + Seq::new(copies as nat, |_k: int| one));
            assert(prev == base + done);
            assert(base + (done + Seq::new(copies as nat, |_k: int| one)) =~= prev + Seq::new(copies as nat, |_k: int| one));
        }
        i = i + 1;
    }
    assert(files@.subrange(0, files@.len() as int) =~= files@);
    Ok((out, count, total))
}

/// The item of a reference file in a reverse audit; `raw` is the display
/// path of the first RAW file that pairs with it.
pub open spec fn audit_item(m: ReferenceMatch, raw: Option<Seq<char>>) -> ItemView {
    match m.source {
        Some(f) => item_spec(f.relative_path@, ok_facts(f.facts), status_of(raw), FileKind::Reference, raw),
        None => item_spec(seq![], FileFacts { size_bytes: 0, modified_ms: None }, status_of(raw), FileKind::Reference, raw),
    }
}

/// The items of the reference files of one entry, in order.
pub open spec fn match_items(ms: Seq<ReferenceMatch>, raw: Option<Seq<char>>) -> Seq<ItemView>
    decreases ms.len(),
{
    if ms.len() == 0 {
        seq![]
    } else {
        match_items(ms.drop_last(), raw).push(audit_item(ms.last(), raw))
    }
}

/// Why the first unusable reference file of an entry cannot be audited.
pub open spec fn match_error(ms: Seq<ReferenceMatch>) -> Option<Seq<char>>
    decreases ms.len(),
{
    if ms.len() == 0 {
        None
    } else {
        let rest = match_error(ms.drop_last());
        if rest is Some {
            rest
        } else {
            match ms.last().source {
                None => Some("反向审计缺少 JPG 文件路径"@),
                Some(f) => match f.facts {
                    Err(e) => Some(e@),
                    Ok(_) => None,
                },
            }
        }
    }
}

/// The items of a reverse audit, entry by entry.
pub open spec fn audit_items(entries: Seq<ReferenceEntry>, pairs: Seq<(Seq<char>, Seq<char>)>) -> Seq<ItemView>
    decreases entries.len(),
{
    if entries.len() == 0 {
        seq![]
    } else {
        let e = entries.last();
        audit_items(entries.drop_last(), pairs) + match_items(e.matches@, first_display(pairs, e.key@))
    }
}

/// The first reason, entry by entry, why a reference file cannot be audited.
pub open spec fn audit_error(entries: Seq<ReferenceEntry>) -> Option<Seq<char>>
    decreases entries.len(),
{
    if entries.len() == 0 {
        None
    } else {
        let rest = audit_error(entries.drop_last());
        if rest is Some {
            rest
        } else {
            match_error(entries.last().matches@)
        }
    }
}

proof fn lemma_match_error_prefix(ms: Seq<ReferenceMatch>, n: int)
    requires
        0 <= n <= ms.len(),
        match_error(ms.subrange(0, n)) is Some,
    ensures
        match_error(ms) == match_error(ms.subrange(0, n)),
    decreases ms.len(),
{
    if n < ms.len() {
        assert(ms.drop_last().subrange(0, n) =~= ms.subrange(0, n));
        lemma_match_error_prefix(ms.drop_last(), n);
    } else {
        assert(ms.subrange(0, n) =~= ms);
    }
}

proof fn lemma_audit_error_prefix(entries: Seq<ReferenceEntry>, n: int)
    requires
        0 <= n <= entries.len(),
        audit_error(entries.subrange(0, n)) is Some,
    ensures
        audit_error(entries) == audit_error(entries.subrange(0, n)),
    decreases entries.len(),
{
    if n < entries.len() {
        assert(entries.drop_last().subrange(0, n) =~= entries.subrange(0, n));
        lemma_audit_error_prefix(entries.drop_last(), n);
    } else {
        assert(entries.subrange(0, n) =~= entries);
    }
}

/// Items of a reverse audit, with the matched and unmatched counts.
fn audit_phase(entries: &Vec<ReferenceEntry>, pairs: &Vec<(String, String)>) -> (r: Result<
    (Vec<ScanItem>, usize, usize),
    String,
>)
    ensures
        match audit_error(entries@) {
            Some(e) => r matches Err(m) && m@ == e,
            None => r matches Ok((items, matched, unmatched)) && {
                let expected = audit_items(entries@, pair_views(pairs@));
                &&& item_views(items@) == expected
                &&& matched == status_count(expected, MatchStatus::Matched)
                &&& unmatched == status_count(expected, MatchStatus::Unmatched)
            },
        },
{
    let ghost pv = pair_views(pairs@);
    let mut items: Vec<ScanItem> = Vec::new();
    let mut matched: usize = 0;
    let mut unmatched: usize = 0;
    let mut i: usize = 0;
    while i < entries.len()
        invariant
            i <= entries@.len(),
            pv == pair_views(pairs@),
            audit_error(entries@.subrange(0, i as int)) is None,
            item_views(items@) == audit_items(entries@.subrange(0, i as int), pv),
            matched == status_count(item_views(items@), MatchStatus::Matched),
            unmatched == status_count(item_views(items@), MatchStatus::Unmatched),
            matched + unmatched == items@.len(),
        decreases entries@.len() - i,
    {
        let ghost pre = entries@.subrange(0, i as int);
        let ghost next = entries@.subrange(0, i + 1);
        assert(next.drop_last() =~= pre);
        let entry = &entries[i];
        let kv = chars_of(entry.key.as_str());
        let raw = first_display_of(pairs, &kv);
        let ghost rv = opt_view(raw);
        let ghost prev = item_views(items@);
        let ghost ms = entry.matches@;
        let mut j: usize = 0;
        while j < entry.matches.len()
            invariant
                j <= ms.len(),
                ms == entry.matches@,
                i < entries@.len(),
                ms == entries@[i as int].matches@,
                next == entries@.subrange(0, i + 1),
                next.drop_last() == pre,
                next.last() == entries@[i as int],
                audit_error(pre) is None,
                rv == opt_view(raw),
                match_error(ms.subrange(0, j as int)) is None,
                item_views(items@) == prev + match_items(ms.subrange(0, j as int), rv),
                matched == status_count(item_views(items@), MatchStatus::Matched),
                unmatched == status_count(item_views(items@), MatchStatus::Unmatched),
                matched + unmatched == items@.len(),
            decreases ms.len() - j,
        {
            assert(ms.subrange(0, j + 1).drop_last() =~= ms.subrange(0, j as int));
            let m = &entry.matches[j];
            let status = match &raw {
                Some(_) => MatchStatus::Matched,
                None => MatchStatus::Unmatched,
            };
            let source = match &m.source {
                Some(f) => f,
                None => {
                    proof {
                        lemma_match_error_prefix(ms, j + 1);
                        assert(audit_error(next) == match_error(ms));
                        lemma_audit_error_prefix(entries@, i + 1);
                    }
                    return Err("反向审计缺少 JPG 文件路径".to_owned());
                },
            };
            let shown = copy_opt_string(&raw);
            match scan_item(source.relative_path.as_str(), &source.facts, status, FileKind::Reference, shown) {
                Ok(item) => {
                    let ghost before = item_views(items@);
                    items.push(item);
                    proof {
                        assert(item_views(items@) =~= before.push(audit_item(*m, rv)));
                        assert(item_views(items@).drop_last() =~= before);
                        assert(match_items(ms.subrange(0, j + 1), rv) =~= match_items(ms.subrange(0, j as int), rv).push(audit_item(*m, rv)));
                        assert(prev + match_items(ms.subrange(0, j + 1), rv) =~= (prev + match_items(ms.subrange(0, j as int), rv)).push(audit_item(*m, rv)));
                    }
                    let _len = items.len();
                    if status == MatchStatus::Matched {
                        matched = matched + 1;
                    } else {
                        unmatched = unmatched + 1;
                    }
                },
                Err(e) => {
                    proof {
                        lemma_match_error_prefix(ms, j + 1);
                        assert(audit_error(next) == match_error(ms));
                        lemma_audit_error_prefix(entries@, i + 1);
                    }
                    return Err(e);
                },
            }
            j = j + 1;
        }
        assert(ms.subrange(0, ms.len() as int) =~= ms);
        i = i + 1;
    }
    assert(entries@.subrange(0, entries@.len() as int) =~= entries@);
    Ok((items, matched, unmatched))
}

/// Items are shown unmatched first, then by lower-cased relative path.
pub open spec fn scan_key(v: ItemView) -> Seq<char> {
    seq![if v.match_status == MatchStatus::Unmatched { '0' } else { '1' }] + unicode_lowercase(
        v.relative_path,
    )
}

pub open spec fn scan_sorted(s: Seq<ItemView>) -> bool {
    forall|i: int, j: int|
        0 <= i < j < s.len() ==> crate::text::text_le(#[trigger] scan_key(s[i]), #[trigger] scan_key(s[j]))
}

proof fn lemma_views_multiset(a: Seq<ScanItem>, b: Seq<ScanItem>)
    requires
        a.to_multiset() == b.to_multiset(),
    ensures
        item_views(a).to_multiset() == item_views(b).to_multiset(),
{
    crate::sorting::lemma_map_multiset(a, b, |i: ScanItem| i.view());
    assert(item_views(a) =~= a.map_values(|i: ScanItem| i.view()));
    assert(item_views(b) =~= b.map_values(|i: ScanItem| i.view()));
}

/// Orders scan items: unmatched first, then by lower-cased relative path.
fn sort_items(items: Vec<ScanItem>) -> (r: Vec<ScanItem>)
    ensures
        item_views(r@).to_multiset() == item_views(items@).to_multiset(),
        scan_sorted(item_views(r@)),
{
    let mut keyed: Vec<Keyed<ScanItem>> = Vec::new();
    let mut input = items;
    let ghost original = input@;
    while input.len() > 0
        invariant
            values_of(keyed@).to_multiset().add(input@.to_multiset()) == original.to_multiset(),
            forall|i: int| 0 <= i < keyed@.len() ==> (#[trigger] keyed@[i]).key@ == scan_key(keyed@[i].value.view()),
        decreases input@.len(),
    {
        let ghost before = input@;
        let ghost kb = keyed@;
        let item = input.pop().unwrap();
        proof {
            assert(before =~= input@.push(item));
            vstd::seq_lib::to_multiset_build(input@, item);
        }
        let rank = if item.match_status == MatchStatus::Unmatched { '0' } else { '1' };
        let low = lowercase(item.relative_path.as_str());
        let mut rest = chars_of(low.as_str());
        let mut key: Vec<char> = Vec::new();
        key.push(rank);
        key.append(&mut rest);
        assert(key@ =~= scan_key(item.view()));
        keyed.push(Keyed { key, value: item });
        proof {
            assert(values_of(keyed@) =~= values_of(kb).push(item));
            vstd::seq_lib::to_multiset_build(values_of(kb), item);
        }
    }
    let ghost kv = keyed@;
    let sorted = sort_keyed(keyed);
    let ghost sv = sorted@;
    let out = into_values(sorted);
    proof {
        assert(input@.to_multiset() =~= vstd::multiset::Multiset::empty());
        assert(values_of(kv).to_multiset().add(input@.to_multiset()) =~= values_of(kv).to_multiset());
        lemma_views_multiset(out@, original);
        assert forall|i: int, j: int| 0 <= i < j < out@.len() implies crate::text::text_le(
            #[trigger] scan_key(item_views(out@)[i]),
            #[trigger] scan_key(item_views(out@)[j]),
        ) by {
            assert(kv.contains(sv[i]));
            assert(kv.contains(sv[j]));
            assert(sv[i].key@ == scan_key(sv[i].value.view()));
            assert(sv[j].key@ == scan_key(sv[j].value.view()));
            assert(crate::text::text_le(sv[i].key@, sv[j].key@));
        }
    }
    out
}

/// Why a scan in this mode cannot use this reference source.
pub open spec fn scan_mode_error(request: ScanRequest) -> Option<Seq<char>> {
    if request.mode == ScanMode::AuditReference && !(request.reference_source is Directory) {
        Some("反向审计只支持 JPG 目录参考源"@)
    } else {
        None
    }
}

/// A reverse audit needs a JPG directory as its reference source.
pub fn check_scan_mode(request: &ScanRequest) -> (r: Result<(), String>)
    ensures
        match scan_mode_error(*request) {
            Some(e) => r matches Err(m) && m@ == e,
            None => r is Ok,
        },
{
    if request.mode == ScanMode::AuditReference && !request.reference_source.is_directory() {
        return Err("反向审计只支持 JPG 目录参考源".to_owned());
    }
    Ok(())
}

/// Why a JPG directory and a RAW directory cannot be scanned together.
pub open spec fn scan_roots_error(request: ScanRequest, reference_root: Option<String>, raw_root: Seq<char>) -> Option<Seq<char>> {
    if request.reference_source is Directory {
        match reference_root {
            None => Some("JPG 参考目录缺失"@),
            Some(root) => if path_has_prefix(root@, raw_root) || path_has_prefix(raw_root, root@) {
                Some("JPG 参考目录与 RAW 源目录不能相同或互相嵌套"@)
            } else {
                None
            },
        }
    } else {
        None
    }
}

/// A JPG reference directory must exist and must neither be, nor contain,
/// nor lie inside the RAW directory.
pub fn check_scan_roots(request: &ScanRequest, reference_root: &Option<String>, raw_root: &str) -> (r: Result<(), String>)
    ensures
        match scan_roots_error(*request, *reference_root, raw_root@) {
            Some(e) => r matches Err(m) && m@ == e,
            None => r is Ok,
        },
{
    if request.reference_source.is_directory() {
        match reference_root {
            None => return Err("JPG 参考目录缺失".to_owned()),
            Some(root) => {
                if path_starts_with(root.as_str(), raw_root) || path_starts_with(raw_root, root.as_str()) {
                    return Err("JPG 参考目录与 RAW 源目录不能相同或互相嵌套".to_owned());
                }
            },
        }
    }
    Ok(())
}

/// Why a scan of the RAW listing `files` (in processing order) fails, if it does.
pub open spec fn scan_failure(request: ScanRequest, inputs: ScanInputs, files: Seq<ListedFile>) -> Option<Seq<char>> {
    let cs = request.case_sensitive;
    let entries = inputs.reference.entries@;
    let pairs = raw_pairs(files, cs);
    if scan_mode_error(request) is Some {
        scan_mode_error(request)
    } else if scan_roots_error(request, inputs.reference.root, inputs.raw_root@) is Some {
        scan_roots_error(request, inputs.reference.root, inputs.raw_root@)
    } else if request.mode == ScanMode::CleanupRaw {
        if raw_error(files) is Some {
            raw_error(files)
        } else {
            sidecar_error(files, pairs, entries, cs)
        }
    } else {
        audit_error(entries)
    }
}

/// The warnings of a scan.
pub open spec fn scan_warnings(mode: ScanMode, duplicates: usize) -> Seq<Seq<char>> {
    if mode == ScanMode::CleanupRaw && duplicates > 0 {
        seq!["参考目录中有 "@ + decimal_text(duplicates as nat) + " 组重复匹配键，请在执行前核对"@]
    } else {
        seq![]
    }
}

/// What a successful scan of the RAW listing `files` (in processing order) reports.
pub open spec fn summary_holds(s: ScanSummary, request: ScanRequest, inputs: ScanInputs, files: Seq<ListedFile>) -> bool {
    let cs = request.case_sensitive;
    let entries = inputs.reference.entries@;
    let pairs = raw_pairs(files, cs);
    let cleanup = request.mode == ScanMode::CleanupRaw;
    let raws = raw_items(files, entries, cs);
    let sidecars = sidecar_items(files, pairs, entries, cs);
    let counted = if cleanup { raws } else { audit_items(entries, pairs) };
    let found = if cleanup { raws + sidecars } else { counted };
    &&& item_views(s.items@).to_multiset() == found.to_multiset()
    &&& scan_sorted(item_views(s.items@))
    &&& s.plan_id@ == Seq::<char>::empty()
    &&& s.mode == request.mode
    &&& s.reference_files == inputs.reference.source_items
    &&& s.raw_files == pairs.len()
    &&& s.matched == status_count(counted, MatchStatus::Matched)
    &&& s.unmatched == status_count(counted, MatchStatus::Unmatched)
    &&& s.sidecars == (if cleanup { sidecars.len() } else { 0 })
    &&& s.reclaimable_bytes == (if cleanup {
        saturated(unmatched_bytes(raws) + unmatched_bytes(sidecars) as int)
    } else {
        0
    })
    &&& s.duplicate_reference_keys == inputs.reference.duplicate_keys
    &&& s.scanned_at_ms == inputs.scanned_at_ms
    &&& s.warnings@.map_values(|w: String| w@) == scan_warnings(request.mode, inputs.reference.duplicate_keys)
}

/// Every item is matched or unmatched.
pub open spec fn two_way(items: Seq<ItemView>) -> bool {
    forall|i: int| 0 <= i < items.len() ==> ((#[trigger] items[i]).match_status == MatchStatus::Matched
        || items[i].match_status == MatchStatus::Unmatched)
}

proof fn lemma_two_way_counts(items: Seq<ItemView>)
    requires
        two_way(items),
    ensures
        status_count(items, MatchStatus::Matched) + status_count(items, MatchStatus::Unmatched) == items.len(),
    decreases items.len(),
{
    if items.len() > 0 {
        assert(two_way(items.drop_last()));
        lemma_two_way_counts(items.drop_last());
    }
}

proof fn lemma_raw_items(files: Seq<ListedFile>, entries: Seq<ReferenceEntry>, cs: bool)
    ensures
        raw_items(files, entries, cs).len() == raw_pairs(files, cs).len(),
        two_way(raw_items(files, entries, cs)),
    decreases files.len(),
{
    if files.len() > 0 {
        lemma_raw_items(files.drop_last(), entries, cs);
    }
}

proof fn lemma_match_items(ms: Seq<ReferenceMatch>, raw: Option<Seq<char>>)
    ensures
        two_way(match_items(ms, raw)),
    decreases ms.len(),
{
    if ms.len() > 0 {
        lemma_match_items(ms.drop_last(), raw);
    }
}

proof fn lemma_match_items_len(ms: Seq<ReferenceMatch>, raw: Option<Seq<char>>)
    ensures
        match_items(ms, raw).len() == ms.len(),
    decreases ms.len(),
{
    if ms.len() > 0 {
        lemma_match_items_len(ms.drop_last(), raw);
    }
}

proof fn lemma_audit_items_len(entries: Seq<ReferenceEntry>, pairs: Seq<(Seq<char>, Seq<char>)>)
    ensures
        audit_items(entries, pairs).len() == match_total(entries),
    decreases entries.len(),
{
    if entries.len() > 0 {
        lemma_audit_items_len(entries.drop_last(), pairs);
        lemma_match_items_len(entries.last().matches@, first_display(pairs, entries.last().key@));
    }
}

proof fn lemma_audit_items(entries: Seq<ReferenceEntry>, pairs: Seq<(Seq<char>, Seq<char>)>)
    ensures
        two_way(audit_items(entries, pairs)),
    decreases entries.len(),
{
    if entries.len() > 0 {
        lemma_audit_items(entries.drop_last(), pairs);
        let e = entries.last();
        lemma_match_items(e.matches@, first_display(pairs, e.key@));
        let a = audit_items(entries.drop_last(), pairs);
        let b = match_items(e.matches@, first_display(pairs, e.key@));
        assert forall|i: int| 0 <= i < (a + b).len() implies ((#[trigger] (a + b)[i]).match_status == MatchStatus::Matched
            || (a + b)[i].match_status == MatchStatus::Unmatched) by {
            if i < a.len() {
                assert((a + b)[i] == a[i]);
            } else {
                assert((a + b)[i] == b[i - a.len()]);
            }
        }
    }
}

/// The counts of a scan add up: every item is matched, unmatched or a
/// sidecar; a cleanup scan counts each listed RAW file once as matched or
/// unmatched; an audit has no sidecars and nothing to reclaim, and counts
/// each reference file once as matched or unmatched when the index holds as
/// many files as it says it does (as a directory index does).
pub proof fn scan_counts_add_up(s: ScanSummary, request: ScanRequest, inputs: ScanInputs, files: Seq<ListedFile>)
    requires
        summary_holds(s, request, inputs, files),
    ensures
        s.items@.len() == s.matched + s.unmatched + s.sidecars,
        request.mode == ScanMode::CleanupRaw ==> s.matched + s.unmatched == s.raw_files,
        request.mode == ScanMode::AuditReference ==> s.sidecars == 0 && s.reclaimable_bytes == 0,
        request.mode == ScanMode::AuditReference && inputs.reference.source_items == match_total(inputs.reference.entries@)
            ==> s.matched + s.unmatched == s.reference_files,
{
    broadcast use vstd::seq_lib::to_multiset_len;
    let cs = request.case_sensitive;
    let entries = inputs.reference.entries@;
    let pairs = raw_pairs(files, cs);
    let raws = raw_items(files, entries, cs);
    let sidecars = sidecar_items(files, pairs, entries, cs);
    lemma_raw_items(files, entries, cs);
    lemma_audit_items(entries, pairs);
    assert(item_views(s.items@).len() == s.items@.len());
    if request.mode == ScanMode::CleanupRaw {
        lemma_two_way_counts(raws);
        assert((raws + sidecars).to_multiset().len() == (raws + sidecars).len());
    } else {
        lemma_two_way_counts(audit_items(entries, pairs));
        lemma_audit_items_len(entries, pairs);
        assert(audit_items(entries, pairs).to_multiset().len() == audit_items(entries, pairs).len());
    }
}

/// The listed files outside the quarantine directory at the top of the root.
pub open spec fn outside_quarantine(files: Seq<ListedFile>) -> Seq<ListedFile> {
    files.filter(|f: ListedFile| !in_quarantine_dir(f.relative_path@))
}

/// Leaves out the listed files in the quarantine directory at the top of the
/// root, keeping the others in order.
pub fn drop_quarantined(files: &Vec<ListedFile>) -> (r: Vec<ListedFile>)
    ensures
        r@ == outside_quarantine(files@),
{
    let mut out: Vec<ListedFile> = Vec::new();
    let mut i: usize = 0;
    proof {
        reveal(Seq::filter);
        assert(files@.subrange(0, 0) =~= Seq::<ListedFile>::empty());
    }
    while i < files.len()
        invariant
            i <= files@.len(),
            out@ == outside_quarantine(files@.subrange(0, i as int)),
        decreases files@.len() - i,
    {
        assert(files@.subrange(0, i + 1).drop_last() =~= files@.subrange(0, i as int));
        proof {
            reveal(Seq::filter);
        }
        if !is_in_quarantine_dir(files[i].relative_path.as_str()) {
            out.push(copy_listed(&files[i]));
        }
        i = i + 1;
    }
    assert(files@.subrange(0, files@.len() as int) =~= files@);
    out
}

/// Scans a RAW listing against a reference index. The listing is taken in
/// the order of lower-cased display paths; items come out unmatched first,
/// then by lower-cased relative path.
pub fn scan_pairs_impl(request: &ScanRequest, inputs: ScanInputs) -> (r: Result<ScanSummary, String>)
    requires
        inputs.reference.wf(),
    ensures
        exists|files: Seq<ListedFile>| {
            &&& files.to_multiset() == outside_quarantine(inputs.raw_files@).to_multiset()
            &&& listing_sorted(files)
            &&& match scan_failure(*request, inputs, files) {
                Some(e) => r matches Err(m) && m@ == e,
                None => r matches Ok(s) && summary_holds(s, *request, inputs, files),
            }
        },
{
    let ghost original = inputs;
    let ScanInputs { raw_root, raw_files, reference, scanned_at_ms } = inputs;
    let files = sort_listing(drop_quarantined(&raw_files));
    let ghost fv = files@;
    check_scan_mode(request)?;
    check_scan_roots(request, &reference.root, raw_root.as_str())?;
    let cs = request.case_sensitive;
    let pairs = raw_pairs_of(&files, cs);
    let (items, matched, unmatched, sidecars, bytes) = match request.mode {
        ScanMode::CleanupRaw => {
            let (items, matched, unmatched, bytes) = raw_phase(&files, &reference.entries, cs)?;
            let (items, sidecars, bytes) = sidecar_phase(&files, &reference.entries, &pairs, cs, items, bytes)?;
            (items, matched, unmatched, sidecars, bytes)
        },
        ScanMode::AuditReference => {
            let (items, matched, unmatched) = audit_phase(&reference.entries, &pairs)?;
            (items, matched, unmatched, 0, 0)
        },
    };
    let items = sort_items(items);
    let mut warnings: Vec<String> = Vec::new();
    if request.mode == ScanMode::CleanupRaw && reference.duplicate_keys > 0 {
        let n = decimal(reference.duplicate_keys as u64);
        warnings.push(concat3("参考目录中有 ", n.as_str(), " 组重复匹配键，请在执行前核对"));
    }
    let summary = ScanSummary {
        plan_id: String::new(),
        mode: request.mode,
        reference_files: reference.source_items,
        raw_files: pairs.len(),
        matched,
        unmatched,
        sidecars,
        reclaimable_bytes: bytes,
        duplicate_reference_keys: reference.duplicate_keys,
        scanned_at_ms,
        warnings,
        items,
    };
    proof {
        assert(summary.warnings@.map_values(|w: String| w@) =~= scan_warnings(request.mode, reference.duplicate_keys));
        assert(summary_holds(summary, *request, original, fv));
    }
    Ok(summary)
}

/// In a scan result every unmatched item comes before every matched one.
pub proof fn unmatched_items_come_first(items: Seq<ItemView>, i: int, j: int)
    requires
        scan_sorted(items),
        0 <= i < j < items.len(),
        items[j].match_status == MatchStatus::Unmatched,
    ensures
        items[i].match_status == MatchStatus::Unmatched,
{
    if items[i].match_status != MatchStatus::Unmatched {
        let ki = scan_key(items[i]);
        let kj = scan_key(items[j]);
        assert(ki[0] == '1');
        assert(kj[0] == '0');
        assert(crate::text::text_lt(kj, ki));
        assert(crate::text::text_le(ki, kj));
    }
}

proof fn lemma_first_display_some(pairs: Seq<(Seq<char>, Seq<char>)>, key: Seq<char>)
    requires
        first_display(pairs, key) is Some,
    ensures
        exists|j: int| 0 <= j < pairs.len() && (#[trigger] pairs[j]).0 == key,
    decreases pairs.len(),
{
    if first_display(pairs.drop_last(), key) is Some {
        lemma_first_display_some(pairs.drop_last(), key);
        let j = choose|j: int| 0 <= j < pairs.drop_last().len() && (#[trigger] pairs.drop_last()[j]).0 == key;
        assert(pairs[j] == pairs.drop_last()[j]);
    } else {
        assert(pairs[pairs.len() - 1].0 == key);
    }
}

/// A key that a RAW of the listing carries and no reference entry does.
pub open spec fn carried_only_by_raws(pairs: Seq<(Seq<char>, Seq<char>)>, entries: Seq<ReferenceEntry>, key: Seq<char>) -> bool {
    &&& exists|j: int| 0 <= j < pairs.len() && (#[trigger] pairs[j]).0 == key
    &&& forall|i: int| 0 <= i < entries.len() ==> (#[trigger] entries[i]).key@ != key
}

proof fn lemma_missing_key_exists(keys: Seq<Seq<char>>, pairs: Seq<(Seq<char>, Seq<char>)>, entries: Seq<ReferenceEntry>)
    requires
        missing_count(keys, pairs, entries) > 0,
    ensures
        exists|k: Seq<char>| keys.contains(k) && carried_only_by_raws(pairs, entries, k),
    decreases keys.len(),
{
    if missing_count(keys.drop_last(), pairs, entries) > 0 {
        lemma_missing_key_exists(keys.drop_last(), pairs, entries);
        let k = choose|k: Seq<char>| keys.drop_last().contains(k) && carried_only_by_raws(pairs, entries, k);
        let j = choose|j: int| 0 <= j < keys.drop_last().len() && keys.drop_last()[j] == k;
        assert(keys[j] == k);
        assert(keys.contains(k) && carried_only_by_raws(pairs, entries, k));
    } else {
        let k = keys.last();
        assert(key_missing(pairs, entries, k));
        lemma_first_display_some(pairs, k);
        assert(keys[keys.len() - 1] == k);
        assert forall|i: int| 0 <= i < entries.len() implies (#[trigger] entries[i]).key@ != k by {
            if entries[i].key@ == k {
                assert(has_entry(entries, k));
            }
        }
        assert(keys.contains(k));
        assert(carried_only_by_raws(pairs, entries, k));
    }
}

/// A cleanup scan offers the sidecar of a RAW only for a RAW without a
/// reference: every sidecar item comes from a listed sidecar file one of
/// whose pairing keys a listed RAW carries and no reference entry carries.
/// So the sidecar of a kept RAW is never offered for cleanup.
pub proof fn exposed_sidecars_belong_to_unreferenced_raws(
    files: Seq<ListedFile>,
    pairs: Seq<(Seq<char>, Seq<char>)>,
    entries: Seq<ReferenceEntry>,
    case_sensitive: bool,
    n: int,
)
    requires
        0 <= n < sidecar_items(files, pairs, entries, case_sensitive).len(),
    ensures
        exists|f: ListedFile, k: Seq<char>| {
            &&& files.contains(f)
            &&& sidecar_items(files, pairs, entries, case_sensitive)[n] == sidecar_item(f)
            &&& sidecar_keys(f.relative_path@, case_sensitive).contains(k)
            &&& carried_only_by_raws(pairs, entries, k)
        },
    decreases files.len(),
{
    let rest = sidecar_items(files.drop_last(), pairs, entries, case_sensitive);
    let f = files.last();
    let copies = sidecar_copies(f, pairs, entries, case_sensitive);
    let added = Seq::new(copies, |_i: int| sidecar_item(f));
    assert(sidecar_items(files, pairs, entries, case_sensitive) == rest + added);
    if n < rest.len() {
        exposed_sidecars_belong_to_unreferenced_raws(files.drop_last(), pairs, entries, case_sensitive, n);
        let (g, k) = choose|g: ListedFile, k: Seq<char>| {
            &&& files.drop_last().contains(g)
            &&& rest[n] == sidecar_item(g)
            &&& sidecar_keys(g.relative_path@, case_sensitive).contains(k)
            &&& carried_only_by_raws(pairs, entries, k)
        };
        let j = choose|j: int| 0 <= j < files.drop_last().len() && files.drop_last()[j] == g;
        assert(files[j] == g);
        assert((rest + added)[n] == rest[n]);
    } else {
        assert(copies > 0);
        assert(is_sidecar_path(f.relative_path@));
        lemma_missing_key_exists(sidecar_keys(f.relative_path@, case_sensitive), pairs, entries);
        assert(files[files.len() - 1] == f);
        assert((rest + added)[n] == added[n - rest.len()]);
    }
}

} // verus!
