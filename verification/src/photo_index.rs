//! Indexing a photo directory: every JPG and RAW file is filed under its
//! photo group key, each XMP file is attached to the group it belongs to, and
//! the groups come out ordered by key with their files in a stable order.
//!
//! The directory walk itself belongs to the caller, which hands over the
//! listing (display paths relative to the root, with their sizes and times).

use vstd::prelude::*;
use crate::formats::{group_key, is_raw, is_raw_path, is_reference, is_reference_path, is_sidecar, is_sidecar_path, photo_group_key, sidecar_keys, sidecar_match_keys};
use crate::paths::{display_path, display_text, extension_text, file_name, file_name_text, has_file_name, strip_extension, without_extension};
use crate::photo_groups::{extension_label, PhotoAsset, PhotoIndex, PhotoMemberKind, PhotoMemberSnapshot, RatingState};
use crate::rating_sync::contains_text;
use crate::safety::texts;
use crate::reference::{copy_listed, listing_key, listing_sorted, sort_listing, FileFacts, ListedFile};
use crate::sorting::{into_values, keys_sorted, sort_keyed, values_of, Keyed};
use crate::text::{ascii_upper_text, chars_of, concat, concat3, lowercase, text_le, text_lt, unicode_lowercase};

verus! {

broadcast use vstd::seq_lib::group_to_multiset_ensures;

/// A group member as plain values.
pub struct MemberView {
    pub kind: PhotoMemberKind,
    pub path: Seq<char>,
    pub size: u64,
    pub modified: Option<u64>,
}

impl PhotoMemberSnapshot {
    pub open spec fn view(&self) -> MemberView {
        MemberView { kind: self.kind, path: self.relative_path@, size: self.size_bytes, modified: self.modified_ms }
    }
}

pub open spec fn member_views(s: Seq<PhotoMemberSnapshot>) -> Seq<MemberView> {
    s.map_values(|m: PhotoMemberSnapshot| m.view())
}

/// A photo group while the listing is read: its key, the stem of its first
/// file, its files by kind in the order met, its members, total size, latest
/// modification time and the issues found.
pub struct GroupView {
    pub key: Seq<char>,
    pub stem: Seq<char>,
    pub jpegs: Seq<Seq<char>>,
    pub raws: Seq<Seq<char>>,
    pub xmps: Seq<Seq<char>>,
    pub members: Seq<MemberView>,
    pub size: u64,
    pub modified: Option<u64>,
    pub issues: Seq<Seq<char>>,
}

/// `u64::saturating_add`.
pub open spec fn sat_add(a: u64, b: u64) -> u64 {
    if a + b > u64::MAX { u64::MAX } else { (a + b) as u64 }
}

/// The later of two modification times; a missing one is ignored.
pub open spec fn latest(a: Option<u64>, b: Option<u64>) -> Option<u64> {
    match a {
        Some(x) => match b {
            Some(y) => Some(if x >= y { x } else { y }),
            None => Some(x),
        },
        None => b,
    }
}

/// The kind of a listed file that forms groups (JPG or RAW), if any.
pub open spec fn member_kind_of(path: Seq<char>) -> Option<PhotoMemberKind> {
    if is_reference_path(path) {
        Some(PhotoMemberKind::Jpeg)
    } else if is_raw_path(path) {
        Some(PhotoMemberKind::Raw)
    } else {
        None
    }
}

pub open spec fn find_group_in(groups: Seq<GroupView>, key: Seq<char>, n: nat) -> int
    decreases n,
{
    if n == 0 {
        -1
    } else if groups[n - 1].key == key {
        n - 1
    } else {
        find_group_in(groups, key, (n - 1) as nat)
    }
}

/// The position of the group with `key`, or -1.
pub open spec fn find_group(groups: Seq<GroupView>, key: Seq<char>) -> int {
    find_group_in(groups, key, groups.len())
}

pub open spec fn new_group(key: Seq<char>, stem: Seq<char>) -> GroupView {
    GroupView {
        key,
        stem,
        jpegs: seq![],
        raws: seq![],
        xmps: seq![],
        members: seq![],
        size: 0,
        modified: None,
        issues: seq![],
    }
}

/// A JPG or RAW file added to its group.
pub open spec fn with_member(g: GroupView, kind: PhotoMemberKind, path: Seq<char>, facts: FileFacts) -> GroupView {
    GroupView {
        jpegs: if kind == PhotoMemberKind::Jpeg { g.jpegs.push(path) } else { g.jpegs },
        raws: if kind == PhotoMemberKind::Raw { g.raws.push(path) } else { g.raws },
        members: g.members.push(MemberView { kind, path, size: facts.size_bytes, modified: facts.modified_ms }),
        size: sat_add(g.size, facts.size_bytes),
        modified: latest(g.modified, facts.modified_ms),
        ..g
    }
}

/// Files a JPG or RAW file under its key, opening the group when it is new.
pub open spec fn add_file(groups: Seq<GroupView>, kind: PhotoMemberKind, path: Seq<char>, facts: FileFacts) -> Seq<GroupView> {
    let key = group_key(path, false);
    let i = find_group(groups, key);
    if i < 0 {
        groups.push(with_member(new_group(key, without_extension(path)), kind, path, facts))
    } else {
        groups.update(i, with_member(groups[i], kind, path, facts))
    }
}

/// The first pass over the listing: groups in the order first met, XMP files
/// put aside in listing order, or the first unreadable JPG or RAW file.
pub struct FirstPass {
    pub groups: Seq<GroupView>,
    pub sidecars: Seq<ListedFile>,
    pub error: Option<Seq<char>>,
}

pub open spec fn first_pass(files: Seq<ListedFile>, n: nat) -> FirstPass
    decreases n,
{
    if n == 0 {
        FirstPass { groups: seq![], sidecars: seq![], error: None }
    } else {
        let p = first_pass(files, (n - 1) as nat);
        let f = files[n - 1];
        let path = f.relative_path@;
        if p.error is Some {
            p
        } else if is_sidecar_path(path) {
            FirstPass { sidecars: p.sidecars.push(f), ..p }
        } else {
            match member_kind_of(path) {
                None => p,
                Some(kind) => match f.facts {
                    Err(e) => FirstPass { error: Some("读取照片信息失败："@ + e@), ..p },
                    Ok(facts) => FirstPass { groups: add_file(p.groups, kind, path, facts), ..p },
                },
            }
        }
    }
}

/// The keys among the first `n` of `keys` that name a group, in order.
pub open spec fn matching_keys(groups: Seq<GroupView>, keys: Seq<Seq<char>>, n: nat) -> Seq<Seq<char>>
    decreases n,
{
    if n == 0 {
        seq![]
    } else {
        let m = matching_keys(groups, keys, (n - 1) as nat);
        if find_group(groups, keys[n - 1]) >= 0 { m.push(keys[n - 1]) } else { m }
    }
}

/// An XMP file attached to the last group it can belong to; one that can
/// belong to several is noted as an issue of that group.
pub open spec fn attach_sidecar(groups: Seq<GroupView>, f: ListedFile) -> Result<Seq<GroupView>, Seq<char>> {
    let path = f.relative_path@;
    let keys = sidecar_keys(path, false);
    let matching = matching_keys(groups, keys, keys.len());
    if matching.len() == 0 {
        Ok(groups)
    } else {
        match f.facts {
            Err(e) => Err("读取照片信息失败："@ + e@),
            Ok(facts) => {
                let i = find_group(groups, matching.last());
                let g = groups[i];
                Ok(groups.update(i, GroupView {
                    xmps: g.xmps.push(path),
                    members: g.members.push(MemberView {
                        kind: PhotoMemberKind::Xmp,
                        path,
                        size: facts.size_bytes,
                        modified: facts.modified_ms,
                    }),
                    issues: if matching.len() > 1 {
                        g.issues.push("XMP "@ + path + " 可以匹配多个照片组"@)
                    } else {
                        g.issues
                    },
                    ..g
                }))
            },
        }
    }
}

pub open spec fn second_pass(groups: Seq<GroupView>, sidecars: Seq<ListedFile>, n: nat) -> Result<Seq<GroupView>, Seq<char>>
    decreases n,
{
    if n == 0 {
        Ok(groups)
    } else {
        match second_pass(groups, sidecars, (n - 1) as nat) {
            Err(e) => Err(e),
            Ok(g) => attach_sidecar(g, sidecars[n - 1]),
        }
    }
}

/// The groups of a listing, XMP files taken in the order `sidecars` gives.
pub open spec fn listing_groups(files: Seq<ListedFile>, sidecars: Seq<ListedFile>) -> Result<Seq<GroupView>, Seq<char>> {
    let p = first_pass(files, files.len());
    match p.error {
        Some(e) => Err(e),
        None => second_pass(p.groups, sidecars, sidecars.len()),
    }
}

// ---------------------------------------------------------------------------
// Finished assets
// ---------------------------------------------------------------------------
pub open spec fn sorted_by_lowercase(s: Seq<Seq<char>>) -> bool {
    forall|i: int, j: int| 0 <= i < j < s.len() ==> text_le(
        #[trigger] unicode_lowercase(s[i]),
        #[trigger] unicode_lowercase(s[j]),
    )
}

pub open spec fn members_sorted(s: Seq<MemberView>) -> bool {
    forall|i: int, j: int| 0 <= i < j < s.len() ==> text_le(
        unicode_lowercase(#[trigger] s[i].path),
        unicode_lowercase(#[trigger] s[j].path),
    )
}

/// The extension badges of a group: the upper-case extensions of its files,
/// each once, in order of first appearance.
pub open spec fn unique_labels(paths: Seq<Seq<char>>, n: nat) -> Seq<Seq<char>>
    decreases n,
{
    if n == 0 {
        seq![]
    } else {
        let acc = unique_labels(paths, (n - 1) as nat);
        let label = ascii_upper_text(extension_text(paths[n - 1]));
        if label.len() > 0 && !acc.contains(label) { acc.push(label) } else { acc }
    }
}

/// The name shown for a group: the last component of its stem.
pub open spec fn stem_name(stem: Seq<char>) -> Seq<char> {
    if has_file_name(stem) { file_name_text(stem) } else { stem }
}

pub open spec fn no_rating() -> RatingState {
    RatingState { frame_pair: 0, jpeg_metadata: None, raw_xmp: None, resolved: 0, conflict: false }
}

/// An asset finished from a group: its files sorted by lower-cased path,
/// the first JPG as its preview, badges from its JPG then RAW files.
pub open spec fn asset_matches(a: PhotoAsset, g: GroupView) -> bool {
    let jpegs = texts(a.jpeg_paths@);
    let raws = texts(a.raw_paths@);
    let xmps = texts(a.xmp_paths@);
    &&& a.id@ == g.key
    &&& a.relative_stem@ == g.stem
    &&& a.name@ == stem_name(g.stem)
    &&& jpegs.to_multiset() == g.jpegs.to_multiset() && sorted_by_lowercase(jpegs)
    &&& raws.to_multiset() == g.raws.to_multiset() && sorted_by_lowercase(raws)
    &&& xmps.to_multiset() == g.xmps.to_multiset() && sorted_by_lowercase(xmps)
    &&& member_views(a.members@).to_multiset() == g.members.to_multiset() && members_sorted(member_views(a.members@))
    &&& (if jpegs.len() > 0 { a.preview_path matches Some(p) && p@ == jpegs[0] } else { a.preview_path is None })
    &&& texts(a.extensions@) == unique_labels(jpegs + raws, (jpegs + raws).len())
    &&& a.size_bytes == g.size
    &&& a.modified_ms == g.modified
    &&& a.rating == 0
    &&& a.rating_state == no_rating()
    &&& texts(a.rating_issues@) == g.issues
}

// ---------------------------------------------------------------------------
// Building the groups
// ---------------------------------------------------------------------------
/// A photo group being built.
pub struct GroupBuilder {
    pub key: String,
    pub stem: String,
    pub jpegs: Vec<String>,
    pub raws: Vec<String>,
    pub xmps: Vec<String>,
    pub members: Vec<PhotoMemberSnapshot>,
    pub size: u64,
    pub modified: Option<u64>,
    pub issues: Vec<String>,
}

impl GroupBuilder {
    pub open spec fn view(&self) -> GroupView {
        GroupView {
            key: self.key@,
            stem: self.stem@,
            jpegs: texts(self.jpegs@),
            raws: texts(self.raws@),
            xmps: texts(self.xmps@),
            members: member_views(self.members@),
            size: self.size,
            modified: self.modified,
            issues: texts(self.issues@),
        }
    }
}

pub open spec fn group_views(s: Seq<GroupBuilder>) -> Seq<GroupView> {
    s.map_values(|g: GroupBuilder| g.view())
}

/// Keys name at most one group each.
pub open spec fn keys_distinct(groups: Seq<GroupView>) -> bool {
    forall|i: int, j: int| 0 <= i < j < groups.len() ==> (#[trigger] groups[i]).key != (#[trigger] groups[j]).key
}

proof fn lemma_find_group_in(groups: Seq<GroupView>, key: Seq<char>, n: nat)
    requires
        n <= groups.len(),
    ensures
        -1 <= find_group_in(groups, key, n) < n,
        find_group_in(groups, key, n) >= 0 ==> groups[find_group_in(groups, key, n)].key == key,
        find_group_in(groups, key, n) < 0 ==> forall|i: int| 0 <= i < n ==> (#[trigger] groups[i]).key != key,
    decreases n,
{
    if n > 0 {
        lemma_find_group_in(groups, key, (n - 1) as nat);
    }
}

/// The group with `key`: found, or not there at all.
pub proof fn lemma_find_group(groups: Seq<GroupView>, key: Seq<char>)
    ensures
        -1 <= find_group(groups, key) < groups.len(),
        find_group(groups, key) >= 0 ==> groups[find_group(groups, key)].key == key,
        find_group(groups, key) < 0 ==> forall|i: int| 0 <= i < groups.len() ==> (#[trigger] groups[i]).key != key,
{
    lemma_find_group_in(groups, key, groups.len());
}

proof fn lemma_find_group_unique(groups: Seq<GroupView>, key: Seq<char>, i: int)
    requires
        keys_distinct(groups),
        0 <= i < groups.len(),
        groups[i].key == key,
    ensures
        find_group(groups, key) == i,
{
    lemma_find_group(groups, key);
    let f = find_group(groups, key);
    if f != i {
        if f < i {
            assert(groups[f].key != groups[i].key);
        } else {
            assert(groups[i].key != groups[f].key);
        }
    }
}

/// The position of the group with `key`.
fn find_builder(groups: &Vec<GroupBuilder>, key: &String) -> (r: Option<usize>)
    requires
        keys_distinct(group_views(groups@)),
    ensures
        match r {
            Some(i) => i < groups@.len() && i as int == find_group(group_views(groups@), key@),
            None => find_group(group_views(groups@), key@) < 0,
        },
{
    let ghost views = group_views(groups@);
    let mut i: usize = 0;
    while i < groups.len()
        invariant
            i <= groups@.len(),
            views == group_views(groups@),
            keys_distinct(views),
            forall|k: int| 0 <= k < i ==> (#[trigger] views[k]).key != key@,
        decreases groups@.len() - i,
    {
        if groups[i].key == *key {
            proof {
                lemma_find_group_unique(views, key@, i as int);
            }
            return Some(i);
        }
        i = i + 1;
    }
    proof {
        lemma_find_group(views, key@);
        if find_group(views, key@) >= 0 {
            assert(views[find_group(views, key@)].key == key@);
        }
    }
    None
}

fn latest_of(a: Option<u64>, b: Option<u64>) -> (r: Option<u64>)
    ensures
        r == latest(a, b),
{
    match a {
        Some(x) => match b {
            Some(y) => Some(if x >= y { x } else { y }),
            None => Some(x),
        },
        None => b,
    }
}

/// Adds a JPG or RAW file to a group.
fn add_member(g: &mut GroupBuilder, kind: PhotoMemberKind, path: &String, facts: FileFacts)
    requires
        kind != PhotoMemberKind::Xmp,
    ensures
        final(g).view() == with_member(old(g).view(), kind, path@, facts),
{
    match kind {
        PhotoMemberKind::Jpeg => g.jpegs.push(path.clone()),
        _ => g.raws.push(path.clone()),
    }
    g.members.push(PhotoMemberSnapshot {
        kind,
        relative_path: path.clone(),
        size_bytes: facts.size_bytes,
        modified_ms: facts.modified_ms,
    });
    g.size = g.size.saturating_add(facts.size_bytes);
    g.modified = latest_of(g.modified, facts.modified_ms);
    proof {
        assert(texts(g.jpegs@) =~= with_member(old(g).view(), kind, path@, facts).jpegs);
        assert(texts(g.raws@) =~= with_member(old(g).view(), kind, path@, facts).raws);
        assert(member_views(g.members@) =~= with_member(old(g).view(), kind, path@, facts).members);
    }
}

/// The first pass: groups and the XMP files put aside.
fn group_files(files: &Vec<ListedFile>) -> (r: Result<(Vec<GroupBuilder>, Vec<ListedFile>), String>)
    ensures
        match first_pass(files@, files@.len()).error {
            Some(e) => r matches Err(m) && m@ == e,
            None => r matches Ok(v) && group_views(v.0@) == first_pass(files@, files@.len()).groups
                && v.1@ == first_pass(files@, files@.len()).sidecars && keys_distinct(group_views(v.0@)),
        },
{
    let mut groups: Vec<GroupBuilder> = Vec::new();
    let mut sidecars: Vec<ListedFile> = Vec::new();
    let mut i: usize = 0;
    while i < files.len()
        invariant
            i <= files@.len(),
            first_pass(files@, i as nat).error is None,
            group_views(groups@) == first_pass(files@, i as nat).groups,
            sidecars@ == first_pass(files@, i as nat).sidecars,
            keys_distinct(group_views(groups@)),
        decreases files@.len() - i,
    {
        let f = &files[i];
        let path = &f.relative_path;
        if is_sidecar(path.as_str()) {
            sidecars.push(copy_listed(f));
        } else {
            let kind = if is_reference(path.as_str()) {
                Some(PhotoMemberKind::Jpeg)
            } else if is_raw(path.as_str()) {
                Some(PhotoMemberKind::Raw)
            } else {
                None
            };
            match kind {
                None => {},
                Some(kind) => match &f.facts {
                    Err(e) => {
                        proof {
                            lemma_first_pass_error_stays(files@, (i + 1) as nat, files@.len());
                        }
                        return Err(concat("读取照片信息失败：", e.as_str()));
                    },
                    Ok(facts) => {
                        let facts = FileFacts { size_bytes: facts.size_bytes, modified_ms: facts.modified_ms };
                        let key = photo_group_key(path.as_str(), false);
                        let ghost before = group_views(groups@);
                        match find_builder(&groups, &key) {
                            Some(at) => {
                                add_member(&mut groups[at], kind, path, facts);
                                proof {
                                    assert(group_views(groups@) =~= add_file(before, kind, path@, facts));
                                }
                            },
                            None => {
                                let mut g = GroupBuilder {
                                    key,
                                    stem: strip_extension(path.as_str()),
                                    jpegs: Vec::new(),
                                    raws: Vec::new(),
                                    xmps: Vec::new(),
                                    members: Vec::new(),
                                    size: 0,
                                    modified: None,
                                    issues: Vec::new(),
                                };
                                proof {
                                    assert(texts(g.jpegs@) =~= Seq::<Seq<char>>::empty());
                                    assert(texts(g.raws@) =~= Seq::<Seq<char>>::empty());
                                    assert(texts(g.xmps@) =~= Seq::<Seq<char>>::empty());
                                    assert(texts(g.issues@) =~= Seq::<Seq<char>>::empty());
                                    assert(member_views(g.members@) =~= Seq::<MemberView>::empty());
                                    assert(g.view() == new_group(group_key(path@, false), without_extension(path@)));
                                }
                                add_member(&mut g, kind, path, facts);
                                groups.push(g);
                                proof {
                                    lemma_find_group(before, group_key(path@, false));
                                    assert(group_views(groups@) =~= add_file(before, kind, path@, facts));
                                }
                            },
                        }
                    },
                },
            }
        }
        i = i + 1;
    }
    Ok((groups, sidecars))
}

proof fn lemma_first_pass_error_stays(files: Seq<ListedFile>, n: nat, m: nat)
    requires
        n <= m,
        first_pass(files, n).error is Some,
    ensures
        first_pass(files, m) == first_pass(files, n),
    decreases m,
{
    if n < m {
        lemma_first_pass_error_stays(files, n, (m - 1) as nat);
    }
}

/// Adds an XMP file to a group, noting when it could belong to several.
fn add_sidecar(g: &mut GroupBuilder, path: &String, facts: FileFacts, several: bool)
    ensures
        final(g).view() == (GroupView {
            xmps: old(g).view().xmps.push(path@),
            members: old(g).view().members.push(MemberView {
                kind: PhotoMemberKind::Xmp,
                path: path@,
                size: facts.size_bytes,
                modified: facts.modified_ms,
            }),
            issues: if several {
                old(g).view().issues.push("XMP "@ + path@ + " 可以匹配多个照片组"@)
            } else {
                old(g).view().issues
            },
            ..old(g).view()
        }),
{
    g.xmps.push(path.clone());
    g.members.push(PhotoMemberSnapshot {
        kind: PhotoMemberKind::Xmp,
        relative_path: path.clone(),
        size_bytes: facts.size_bytes,
        modified_ms: facts.modified_ms,
    });
    if several {
        g.issues.push(concat3("XMP ", path.as_str(), " 可以匹配多个照片组"));
        proof {
            assert(texts(g.issues@) =~= texts(old(g).issues@).push("XMP "@ + path@ + " 可以匹配多个照片组"@));
        }
    }
    proof {
        assert(texts(g.xmps@) =~= texts(old(g).xmps@).push(path@));
        assert(member_views(g.members@) =~= member_views(old(g).members@).push(MemberView {
            kind: PhotoMemberKind::Xmp,
            path: path@,
            size: facts.size_bytes,
            modified: facts.modified_ms,
        }));
    }
}

proof fn lemma_update_keeps_keys(groups: Seq<GroupView>, i: int, g: GroupView)
    requires
        keys_distinct(groups),
        0 <= i < groups.len(),
        g.key == groups[i].key,
    ensures
        keys_distinct(groups.update(i, g)),
        forall|k: Seq<char>| #[trigger] find_group(groups.update(i, g), k) == find_group(groups, k),
{
    let u = groups.update(i, g);
    assert forall|k: Seq<char>| #[trigger] find_group(u, k) == find_group(groups, k) by {
        lemma_find_group_keys_equal(groups, u, k, groups.len());
    }
}

proof fn lemma_find_group_keys_equal(a: Seq<GroupView>, b: Seq<GroupView>, k: Seq<char>, n: nat)
    requires
        a.len() == b.len(),
        n <= a.len(),
        forall|j: int| 0 <= j < a.len() ==> (#[trigger] a[j]).key == b[j].key,
    ensures
        find_group_in(a, k, n) == find_group_in(b, k, n),
    decreases n,
{
    if n > 0 {
        lemma_find_group_keys_equal(a, b, k, (n - 1) as nat);
    }
}

/// The second pass: each XMP file, in the order given, joins its group.
fn attach_sidecars(groups: &mut Vec<GroupBuilder>, sidecars: &Vec<ListedFile>) -> (r: Result<(), String>)
    requires
        keys_distinct(group_views(old(groups)@)),
    ensures
        match second_pass(group_views(old(groups)@), sidecars@, sidecars@.len()) {
            Ok(g) => r is Ok && group_views(final(groups)@) == g && keys_distinct(g),
            Err(e) => r matches Err(m) && m@ == e,
        },
{
    let ghost start = group_views(groups@);
    let mut n: usize = 0;
    while n < sidecars.len()
        invariant
            n <= sidecars@.len(),
            start == group_views(old(groups)@),
            second_pass(start, sidecars@, n as nat) == Ok::<Seq<GroupView>, Seq<char>>(group_views(groups@)),
            keys_distinct(group_views(groups@)),
        decreases sidecars@.len() - n,
    {
        let ghost views = group_views(groups@);
        let f = &sidecars[n];
        let path = &f.relative_path;
        let keys = sidecar_match_keys(path.as_str(), false);
        let ghost kv = keys@.map_values(|k: String| k@);
        let mut matching: Vec<String> = Vec::new();
        let mut last: usize = 0;
        let mut j: usize = 0;
        while j < keys.len()
            invariant
                j <= keys@.len(),
                kv == keys@.map_values(|k: String| k@),
                views == group_views(groups@),
                keys_distinct(views),
                texts(matching@) == matching_keys(views, kv, j as nat),
                matching@.len() > 0 ==> last < groups@.len() && last as int == find_group(views, texts(matching@).last()),
            decreases keys@.len() - j,
        {
            match find_builder(&groups, &keys[j]) {
                Some(at) => {
                    matching.push(keys[j].clone());
                    last = at;
                    proof {
                        assert(texts(matching@) =~= matching_keys(views, kv, (j + 1) as nat));
                    }
                },
                None => {},
            }
            j = j + 1;
        }
        assert(kv == sidecar_keys(path@, false));
        if matching.len() > 0 {
            match &f.facts {
                Err(e) => {
                    proof {
                        assert(matching_keys(views, kv, kv.len()).len() > 0);
                        assert(attach_sidecar(views, sidecars@[n as int]) == Err::<Seq<GroupView>, Seq<char>>("读取照片信息失败："@ + e@));
                        assert(second_pass(start, sidecars@, (n + 1) as nat) == attach_sidecar(views, sidecars@[n as int]));
                        lemma_second_pass_error_stays(start, sidecars@, (n + 1) as nat, sidecars@.len());
                    }
                    return Err(concat("读取照片信息失败：", e.as_str()));
                },
                Ok(facts) => {
                    let facts = FileFacts { size_bytes: facts.size_bytes, modified_ms: facts.modified_ms };
                    let several = matching.len() > 1;
                    let ghost g0 = views[last as int];
                    add_sidecar(&mut groups[last], path, facts, several);
                    proof {
                        lemma_find_group(views, texts(matching@).last());
                        assert(group_views(groups@) =~= views.update(last as int, group_views(groups@)[last as int]));
                        lemma_update_keeps_keys(views, last as int, group_views(groups@)[last as int]);
                    }
                },
            }
        }
        n = n + 1;
    }
    Ok(())
}

proof fn lemma_second_pass_error_stays(groups: Seq<GroupView>, sidecars: Seq<ListedFile>, n: nat, m: nat)
    requires
        n <= m,
        second_pass(groups, sidecars, n) is Err,
    ensures
        second_pass(groups, sidecars, m) == second_pass(groups, sidecars, n),
    decreases m,
{
    if n < m {
        lemma_second_pass_error_stays(groups, sidecars, n, (m - 1) as nat);
    }
}

// ---------------------------------------------------------------------------
// Finishing the groups
// ---------------------------------------------------------------------------
/// Paths sorted by their lower-cased text.
fn sort_paths(paths: &Vec<String>) -> (r: Vec<String>)
    ensures
        texts(r@).to_multiset() == texts(paths@).to_multiset(),
        sorted_by_lowercase(texts(r@)),
{
    let mut keyed: Vec<Keyed<String>> = Vec::new();
    let mut i: usize = 0;
    while i < paths.len()
        invariant
            i <= paths@.len(),
            keyed@.len() == i,
            values_of(keyed@) == paths@.subrange(0, i as int),
            forall|k: int| 0 <= k < keyed@.len() ==> (#[trigger] keyed@[k]).key@ == unicode_lowercase(keyed@[k].value@),
        decreases paths@.len() - i,
    {
        let low = lowercase(paths[i].as_str());
        keyed.push(Keyed { key: chars_of(low.as_str()), value: paths[i].clone() });
        i = i + 1;
        assert(values_of(keyed@) =~= paths@.subrange(0, i as int));
    }
    assert(paths@.subrange(0, paths@.len() as int) =~= paths@);
    let ghost before = keyed@;
    let sorted = sort_keyed(keyed);
    proof {
        assert forall|k: int| 0 <= k < sorted@.len() implies (#[trigger] sorted@[k]).key@ == unicode_lowercase(sorted@[k].value@) by {
            assert(before.contains(sorted@[k]));
        }
    }
    let ghost sv = sorted@;
    let r = into_values(sorted);
    proof {
        crate::sorting::lemma_map_multiset(values_of(sv), paths@, |x: String| x@);
        assert forall|a: int, b: int| 0 <= a < b < texts(r@).len() implies text_le(
            #[trigger] unicode_lowercase(texts(r@)[a]),
            #[trigger] unicode_lowercase(texts(r@)[b]),
        ) by {
            assert(text_le(sv[a].key@, sv[b].key@));
        }
    }
    r
}

/// Members sorted by their lower-cased relative path.
fn sort_members(members: Vec<PhotoMemberSnapshot>) -> (r: Vec<PhotoMemberSnapshot>)
    ensures
        member_views(r@).to_multiset() == member_views(members@).to_multiset(),
        members_sorted(member_views(r@)),
{
    let ghost original = members@;
    let mut rest = members;
    let mut keyed: Vec<Keyed<PhotoMemberSnapshot>> = Vec::new();
    while rest.len() > 0
        invariant
            values_of(keyed@).to_multiset().add(rest@.to_multiset()) == original.to_multiset(),
            forall|k: int| 0 <= k < keyed@.len() ==> (#[trigger] keyed@[k]).key@ == unicode_lowercase(keyed@[k].value.relative_path@),
        decreases rest@.len(),
    {
        let ghost before_rest = rest@;
        let ghost before_keyed = keyed@;
        let m = rest.pop().unwrap();
        proof {
            assert(before_rest =~= rest@.push(m));
        }
        let low = lowercase(m.relative_path.as_str());
        keyed.push(Keyed { key: chars_of(low.as_str()), value: m });
        proof {
            assert(values_of(keyed@) =~= values_of(before_keyed).push(m));
        }
    }
    let ghost before = keyed@;
    let sorted = sort_keyed(keyed);
    proof {
        assert forall|k: int| 0 <= k < sorted@.len() implies (#[trigger] sorted@[k]).key@ == unicode_lowercase(sorted@[k].value.relative_path@) by {
            assert(before.contains(sorted@[k]));
        }
    }
    let ghost sv = sorted@;
    let r = into_values(sorted);
    proof {
        assert(values_of(before).to_multiset() =~= original.to_multiset());
        crate::sorting::lemma_map_multiset(values_of(sv), original, |m: PhotoMemberSnapshot| m.view());
        assert forall|a: int, b: int| 0 <= a < b < member_views(r@).len() implies text_le(
            unicode_lowercase(#[trigger] member_views(r@)[a].path),
            unicode_lowercase(#[trigger] member_views(r@)[b].path),
        ) by {
            assert(text_le(sv[a].key@, sv[b].key@));
        }
    }
    r
}

/// The extension badges of a group's JPG and RAW files.
fn badge_labels(jpegs: &Vec<String>, raws: &Vec<String>) -> (r: Vec<String>)
    ensures
        texts(r@) == unique_labels(texts(jpegs@) + texts(raws@), (texts(jpegs@) + texts(raws@)).len()),
{
    let ghost all = texts(jpegs@) + texts(raws@);
    let mut out: Vec<String> = Vec::new();
    let mut k: usize = 0;
    while k < jpegs.len()
        invariant
            k <= jpegs@.len(),
            all == texts(jpegs@) + texts(raws@),
            texts(out@) == unique_labels(all, k as nat),
        decreases jpegs@.len() - k,
    {
        assert(jpegs[k as int]@ == all[k as int]);
        add_badge(&mut out, jpegs[k].as_str());
        proof {
            assert(texts(out@) == unique_labels(all, (k + 1) as nat));
        }
        k = k + 1;
    }
    let mut k: usize = 0;
    while k < raws.len()
        invariant
            k <= raws@.len(),
            all == texts(jpegs@) + texts(raws@),
            texts(out@) == unique_labels(all, (jpegs@.len() + k) as nat),
        decreases raws@.len() - k,
    {
        assert(raws[k as int]@ == all[jpegs@.len() + k]);
        add_badge(&mut out, raws[k].as_str());
        k = k + 1;
    }
    out
}

/// Adds the badge of `path` unless it is empty or already there.
fn add_badge(out: &mut Vec<String>, path: &str)
    ensures
        texts(final(out)@) == ({
            let label = ascii_upper_text(extension_text(path@));
            if label.len() > 0 && !texts(old(out)@).contains(label) { texts(old(out)@).push(label) } else { texts(old(out)@) }
        }),
{
    let label = extension_label(path);
    if !label.as_str().is_empty() && !contains_text(out, label.as_str()) {
        out.push(label);
        proof {
            assert(texts(out@) =~= texts(old(out)@).push(label@));
        }
    }
}

/// A finished asset from a built group: its files sorted by lower-cased
/// path, its first JPG as preview, its badges, and no rating yet.
pub fn finalize_asset(builder: GroupBuilder) -> (a: PhotoAsset)
    ensures
        asset_matches(a, builder.view()),
{
    let ghost g = builder.view();
    let jpeg_paths = sort_paths(&builder.jpegs);
    let raw_paths = sort_paths(&builder.raws);
    let xmp_paths = sort_paths(&builder.xmps);
    let members = sort_members(builder.members);
    let extensions = badge_labels(&jpeg_paths, &raw_paths);
    let name = match file_name(builder.stem.as_str()) {
        Some(n) => n,
        None => builder.stem.clone(),
    };
    let preview_path = if jpeg_paths.len() > 0 { Some(jpeg_paths[0].clone()) } else { None };
    let a = PhotoAsset {
        id: builder.key,
        name,
        relative_stem: builder.stem,
        preview_path,
        jpeg_paths,
        raw_paths,
        xmp_paths,
        members,
        extensions,
        size_bytes: builder.size,
        modified_ms: builder.modified,
        rating: 0,
        rating_state: RatingState { frame_pair: 0, jpeg_metadata: None, raw_xmp: None, resolved: 0, conflict: false },
        rating_issues: builder.issues,
    };
    a
}

proof fn lemma_permuted_keys_distinct<T>(a: Seq<Keyed<T>>, b: Seq<Keyed<T>>)
    requires
        a.to_multiset() == b.to_multiset(),
        forall|i: int, j: int| 0 <= i < j < a.len() ==> (#[trigger] a[i]).key@ != (#[trigger] a[j]).key@,
    ensures
        forall|i: int, j: int| 0 <= i < j < b.len() ==> (#[trigger] b[i]).key@ != (#[trigger] b[j]).key@,
{
    assert forall|i: int, j: int| 0 <= i < a.len() && 0 <= j < a.len() && i != j implies a[i] != a[j] by {
        if i < j {
            assert(a[i].key@ != a[j].key@);
        } else {
            assert(a[j].key@ != a[i].key@);
        }
    }
    assert(a.no_duplicates());
    a.lemma_multiset_has_no_duplicates();
    b.lemma_multiset_has_no_duplicates_conv();
    assert forall|i: int, j: int| 0 <= i < j < b.len() implies (#[trigger] b[i]).key@ != (#[trigger] b[j]).key@ by {
        if b[i].key@ == b[j].key@ {
            assert(b.contains(b[i]));
            assert(b.contains(b[j]));
            vstd::seq_lib::to_multiset_contains(b, b[i]);
            vstd::seq_lib::to_multiset_contains(b, b[j]);
            vstd::seq_lib::to_multiset_contains(a, b[i]);
            vstd::seq_lib::to_multiset_contains(a, b[j]);
            assert(a.contains(b[i]));
            assert(a.contains(b[j]));
            let p = choose|p: int| 0 <= p < a.len() && a[p] == b[i];
            let q = choose|q: int| 0 <= q < a.len() && a[q] == b[j];
            if p < q {
                assert(a[p].key@ != a[q].key@);
            } else if q < p {
                assert(a[q].key@ != a[p].key@);
            }
        }
    }
}

/// Assets are ordered by strictly increasing id.
pub open spec fn ids_increasing(assets: Seq<PhotoAsset>) -> bool {
    forall|i: int, j: int| 0 <= i < j < assets.len() ==> text_lt(#[trigger] assets[i].id@, #[trigger] assets[j].id@)
}

/// Each asset is finished from the group with its id.
pub open spec fn assets_from_groups(assets: Seq<PhotoAsset>, groups: Seq<GroupView>) -> bool {
    forall|i: int| 0 <= i < assets.len() ==> {
        let at = find_group(groups, (#[trigger] assets[i]).id@);
        at >= 0 && asset_matches(assets[i], groups[at])
    }
}

/// Every group has an asset with its key as id.
pub open spec fn groups_have_assets(assets: Seq<PhotoAsset>, groups: Seq<GroupView>) -> bool {
    forall|g: int| #![trigger groups[g]] 0 <= g < groups.len() ==> exists|i: int| 0 <= i < assets.len() && (#[trigger] assets[i]).id@ == groups[g].key
}

/// Finishes every group and orders the assets by id.
fn order_assets(groups: Vec<GroupBuilder>) -> (r: Vec<PhotoAsset>)
    requires
        keys_distinct(group_views(groups@)),
    ensures
        r@.len() == groups@.len(),
        ids_increasing(r@),
        assets_from_groups(r@, group_views(groups@)),
        groups_have_assets(r@, group_views(groups@)),
{
    let ghost all = group_views(groups@);
    let ghost original = groups@;
    let mut rest = groups;
    let mut keyed: Vec<Keyed<PhotoAsset>> = Vec::new();
    while rest.len() > 0
        invariant
            all == group_views(original),
            keys_distinct(all),
            rest@ == original.subrange(0, rest@.len() as int),
            keyed@.len() + rest@.len() == original.len(),
            forall|k: int| 0 <= k < keyed@.len() ==> {
                let a = (#[trigger] keyed@[k]).value;
                let at = find_group(all, a.id@);
                &&& keyed@[k].key@ == a.id@
                &&& rest@.len() <= at < all.len()
                &&& asset_matches(a, all[at])
            },
            forall|i: int, j: int| 0 <= i < j < keyed@.len() ==> (#[trigger] keyed@[i]).key@ != (#[trigger] keyed@[j]).key@,
            forall|g: int| #![trigger all[g]] rest@.len() <= g < all.len() ==> exists|k: int| 0 <= k < keyed@.len() && (#[trigger] keyed@[k]).value.id@ == all[g].key,
        decreases rest@.len(),
    {
        let ghost before = keyed@;
        let b = rest.pop().unwrap();
        let ghost at = rest@.len() as int;
        proof {
            assert(b == original[at]);
            assert(all[at] == b.view());
            lemma_find_group_unique(all, b.view().key, at);
        }
        let a = finalize_asset(b);
        let key = chars_of(a.id.as_str());
        keyed.push(Keyed { key, value: a });
        proof {
            assert(rest@ =~= original.subrange(0, rest@.len() as int));
            assert forall|i: int, j: int| 0 <= i < j < keyed@.len() implies (#[trigger] keyed@[i]).key@ != (#[trigger] keyed@[j]).key@ by {
                if j == keyed@.len() - 1 {
                    assert(find_group(all, keyed@[i].value.id@) > at);
                }
            }
            assert forall|g: int| #![trigger all[g]] rest@.len() <= g < all.len() implies exists|k: int| 0 <= k < keyed@.len() && (#[trigger] keyed@[k]).value.id@ == all[g].key by {
                if g == at {
                    assert(keyed@[keyed@.len() - 1].value.id@ == all[g].key);
                } else {
                    let k = choose|k: int| 0 <= k < before.len() && (#[trigger] before[k]).value.id@ == all[g].key;
                    assert(keyed@[k] == before[k]);
                }
            }
        }
    }
    let ghost kv = keyed@;
    let sorted = sort_keyed(keyed);
    proof {
        lemma_permuted_keys_distinct(kv, sorted@);
    }
    let ghost sv = sorted@;
    let r = into_values(sorted);
    proof {
        assert forall|k: int| 0 <= k < sv.len() implies kv.contains(#[trigger] sv[k]) by {}
        assert forall|i: int, j: int| 0 <= i < j < r@.len() implies text_lt(#[trigger] r@[i].id@, #[trigger] r@[j].id@) by {
            assert(kv.contains(sv[i]));
            assert(kv.contains(sv[j]));
            assert(text_le(sv[i].key@, sv[j].key@));
            assert(sv[i].key@ != sv[j].key@);
            lemma_text_lt_total_local(sv[i].key@, sv[j].key@);
        }
        assert forall|i: int| 0 <= i < r@.len() implies {
            let at = find_group(all, (#[trigger] r@[i]).id@);
            at >= 0 && asset_matches(r@[i], all[at])
        } by {
            assert(kv.contains(sv[i]));
        }
        assert forall|g: int| #![trigger all[g]] 0 <= g < all.len() implies exists|i: int| 0 <= i < r@.len() && (#[trigger] r@[i]).id@ == all[g].key by {
            let k = choose|k: int| 0 <= k < kv.len() && (#[trigger] kv[k]).value.id@ == all[g].key;
            assert(kv.contains(kv[k]));
            vstd::seq_lib::to_multiset_contains(kv, kv[k]);
            vstd::seq_lib::to_multiset_contains(sv, kv[k]);
            assert(sv.contains(kv[k]));
            let j = choose|j: int| 0 <= j < sv.len() && sv[j] == kv[k];
            assert(r@[j] == sv[j].value);
        }
    }
    r
}

proof fn lemma_text_lt_total_local(a: Seq<char>, b: Seq<char>)
    requires
        text_le(a, b),
        a != b,
    ensures
        text_lt(a, b),
{
    crate::text::lemma_text_lt_total(a, b);
}

pub open spec fn count_assets(s: Seq<PhotoAsset>, p: spec_fn(PhotoAsset) -> bool, n: nat) -> nat
    decreases n,
{
    if n == 0 {
        0
    } else {
        count_assets(s, p, (n - 1) as nat) + if p(s[n - 1]) { 1nat } else { 0nat }
    }
}

pub open spec fn is_paired(a: PhotoAsset) -> bool {
    a.jpeg_paths@.len() > 0 && a.raw_paths@.len() > 0
}

pub open spec fn is_previewable(a: PhotoAsset) -> bool {
    a.preview_path is Some
}

pub open spec fn is_raw_only(a: PhotoAsset) -> bool {
    a.jpeg_paths@.len() == 0 && a.raw_paths@.len() > 0
}

/// The index of a directory with the given groups.
pub open spec fn index_holds(idx: PhotoIndex, root: Seq<char>, indexed_at_ms: u64, groups: Seq<GroupView>) -> bool {
    let assets = idx.assets@;
    &&& idx.root@ == display_text(root)
    &&& idx.indexed_at_ms == indexed_at_ms
    &&& assets.len() == groups.len()
    &&& ids_increasing(assets)
    &&& assets_from_groups(assets, groups)
    &&& groups_have_assets(assets, groups)
    &&& idx.total_assets == assets.len()
    &&& idx.paired_assets == count_assets(assets, |a: PhotoAsset| is_paired(a), assets.len())
    &&& idx.previewable_assets == count_assets(assets, |a: PhotoAsset| is_previewable(a), assets.len())
    &&& idx.raw_only_assets == count_assets(assets, |a: PhotoAsset| is_raw_only(a), assets.len())
}

/// Indexes a photo directory from its listing (display paths relative to
/// the canonical root, outside the quarantine directory). JPG and RAW files
/// form groups by key, the stem of a group coming from its first file in the
/// listing; XMP files, taken in lower-cased path order, join the last group
/// they can belong to. An unreadable member fails the index.
pub fn index_directory(root: &str, files: &Vec<ListedFile>, indexed_at_ms: u64) -> (r: Result<PhotoIndex, String>)
    ensures
        first_pass(files@, files@.len()).error matches Some(e) ==> (r matches Err(m) && m@ == e),
        first_pass(files@, files@.len()).error is None ==> exists|sidecars: Seq<ListedFile>| {
            &&& sidecars.to_multiset() == first_pass(files@, files@.len()).sidecars.to_multiset()
            &&& listing_sorted(sidecars)
            &&& match listing_groups(files@, sidecars) {
                Err(e) => r matches Err(m) && m@ == e,
                Ok(groups) => r matches Ok(idx) && index_holds(idx, root@, indexed_at_ms, groups),
            }
        },
{
    let (mut groups, sidecars) = group_files(files)?;
    let sidecars = sort_listing(sidecars);
    let ghost sv = sidecars@;
    attach_sidecars(&mut groups, &sidecars)?;
    let assets = order_assets(groups);
    let mut paired: usize = 0;
    let mut previewable: usize = 0;
    let mut raw_only: usize = 0;
    let mut i: usize = 0;
    while i < assets.len()
        invariant
            i <= assets@.len(),
            paired == count_assets(assets@, |a: PhotoAsset| is_paired(a), i as nat),
            previewable == count_assets(assets@, |a: PhotoAsset| is_previewable(a), i as nat),
            raw_only == count_assets(assets@, |a: PhotoAsset| is_raw_only(a), i as nat),
            paired <= i && previewable <= i && raw_only <= i,
        decreases assets@.len() - i,
    {
        let has_jpeg = assets[i].jpeg_paths.len() > 0;
        let has_raw = assets[i].raw_paths.len() > 0;
        if has_jpeg && has_raw {
            paired = paired + 1;
        }
        if assets[i].preview_path.is_some() {
            previewable = previewable + 1;
        }
        if !has_jpeg && has_raw {
            raw_only = raw_only + 1;
        }
        i = i + 1;
    }
    let total = assets.len();
    Ok(PhotoIndex {
        root: display_path(root),
        indexed_at_ms,
        total_assets: total,
        paired_assets: paired,
        previewable_assets: previewable,
        raw_only_assets: raw_only,
        assets,
    })
}

// ---------------------------------------------------------------------------
// Every file is kept
// ---------------------------------------------------------------------------
proof fn lemma_push_new_key(groups: Seq<GroupView>, g: GroupView)
    requires
        keys_distinct(groups),
        find_group(groups, g.key) < 0,
    ensures
        keys_distinct(groups.push(g)),
{
    lemma_find_group(groups, g.key);
    let u = groups.push(g);
    assert forall|i: int, j: int| 0 <= i < j < u.len() implies (#[trigger] u[i]).key != (#[trigger] u[j]).key by {
        if j == groups.len() {
            assert(groups[i].key != g.key);
        } else {
            assert(groups[i].key != groups[j].key);
        }
    }
}

proof fn lemma_add_file(groups: Seq<GroupView>, kind: PhotoMemberKind, path: Seq<char>, facts: FileFacts)
    requires
        keys_distinct(groups),
    ensures
        keys_distinct(add_file(groups, kind, path, facts)),
        ({
            let u = add_file(groups, kind, path, facts);
            let at = find_group(u, group_key(path, false));
            &&& at >= 0
            &&& kind == PhotoMemberKind::Jpeg ==> u[at].jpegs.contains(path)
            &&& kind == PhotoMemberKind::Raw ==> u[at].raws.contains(path)
        }),
        forall|k: Seq<char>| #[trigger] find_group(groups, k) >= 0 ==> find_group(add_file(groups, kind, path, facts), k)
            == find_group(groups, k),
        add_file(groups, kind, path, facts).len() >= groups.len(),
        forall|j: int, t: Seq<char>| 0 <= j < groups.len() && #[trigger] groups[j].jpegs.contains(t) ==> add_file(
            groups,
            kind,
            path,
            facts,
        )[j].jpegs.contains(t),
        forall|j: int, t: Seq<char>| 0 <= j < groups.len() && #[trigger] groups[j].raws.contains(t) ==> add_file(
            groups,
            kind,
            path,
            facts,
        )[j].raws.contains(t),
{
    let key = group_key(path, false);
    lemma_find_group(groups, key);
    let i = find_group(groups, key);
    let u = add_file(groups, kind, path, facts);
    if i >= 0 {
        let g = with_member(groups[i], kind, path, facts);
        lemma_update_keeps_keys(groups, i, g);
        assert(u[i] == g);
        assert(g.jpegs.len() > 0 ==> true);
        if kind == PhotoMemberKind::Jpeg {
            assert(g.jpegs[g.jpegs.len() - 1] == path);
        }
        if kind == PhotoMemberKind::Raw {
            assert(g.raws[g.raws.len() - 1] == path);
        }
        assert forall|j: int, t: Seq<char>| 0 <= j < groups.len() && #[trigger] groups[j].jpegs.contains(t) implies u[j].jpegs.contains(t) by {
            let x = choose|x: int| 0 <= x < groups[j].jpegs.len() && groups[j].jpegs[x] == t;
            assert(u[j].jpegs[x] == t);
        }
        assert forall|j: int, t: Seq<char>| 0 <= j < groups.len() && #[trigger] groups[j].raws.contains(t) implies u[j].raws.contains(t) by {
            let x = choose|x: int| 0 <= x < groups[j].raws.len() && groups[j].raws[x] == t;
            assert(u[j].raws[x] == t);
        }
    } else {
        let g = with_member(new_group(key, without_extension(path)), kind, path, facts);
        lemma_push_new_key(groups, g);
        lemma_find_group_unique(u, key, groups.len() as int);
        if kind == PhotoMemberKind::Jpeg {
            assert(u[groups.len() as int].jpegs[0] == path);
        }
        if kind == PhotoMemberKind::Raw {
            assert(u[groups.len() as int].raws[0] == path);
        }
        assert forall|k: Seq<char>| #[trigger] find_group(groups, k) >= 0 implies find_group(u, k) == find_group(groups, k) by {
            let j = find_group(groups, k);
            lemma_find_group(groups, k);
            assert(u[j] == groups[j]);
            lemma_find_group_unique(u, k, j);
        }
        assert forall|j: int, t: Seq<char>| 0 <= j < groups.len() && #[trigger] groups[j].jpegs.contains(t) implies u[j].jpegs.contains(t) by {
            assert(u[j] == groups[j]);
        }
        assert forall|j: int, t: Seq<char>| 0 <= j < groups.len() && #[trigger] groups[j].raws.contains(t) implies u[j].raws.contains(t) by {
            assert(u[j] == groups[j]);
        }
    }
}

/// A readable JPG or RAW file of the listing, at position `n`.
pub open spec fn kept_member(f: ListedFile) -> bool {
    &&& !is_sidecar_path(f.relative_path@)
    &&& member_kind_of(f.relative_path@) is Some
    &&& f.facts is Ok
}

/// A group that holds the file's path among the files of its kind.
pub open spec fn holds_file(g: GroupView, f: ListedFile) -> bool {
    match member_kind_of(f.relative_path@) {
        Some(PhotoMemberKind::Jpeg) => g.jpegs.contains(f.relative_path@),
        _ => g.raws.contains(f.relative_path@),
    }
}

proof fn lemma_first_pass_keeps(files: Seq<ListedFile>, m: nat)
    requires
        m <= files.len(),
        first_pass(files, m).error is None,
    ensures
        keys_distinct(first_pass(files, m).groups),
        forall|n: int| 0 <= n < m && kept_member(#[trigger] files[n]) ==> {
            let g = first_pass(files, m).groups;
            let at = find_group(g, group_key(files[n].relative_path@, false));
            at >= 0 && holds_file(g[at], files[n])
        },
    decreases m,
{
    if m > 0 {
        let p = first_pass(files, (m - 1) as nat);
        if p.error is Some {
            lemma_first_pass_error_stays(files, (m - 1) as nat, m);
        }
        lemma_first_pass_keeps(files, (m - 1) as nat);
        let f = files[m - 1];
        let path = f.relative_path@;
        let q = first_pass(files, m);
        if !is_sidecar_path(path) && member_kind_of(path) is Some && f.facts is Ok {
            let kind = member_kind_of(path)->0;
            let facts = f.facts->Ok_0;
            assert(q.groups == add_file(p.groups, kind, path, facts));
            lemma_add_file(p.groups, kind, path, facts);
            assert forall|n: int| 0 <= n < m && kept_member(#[trigger] files[n]) implies {
                let at = find_group(q.groups, group_key(files[n].relative_path@, false));
                at >= 0 && holds_file(q.groups[at], files[n])
            } by {
                if n < m - 1 {
                    let k = group_key(files[n].relative_path@, false);
                    let t = files[n].relative_path@;
                    let j = find_group(p.groups, k);
                    assert(j >= 0);
                    lemma_find_group(p.groups, k);
                    assert(find_group(add_file(p.groups, kind, path, facts), k) == j);
                    if member_kind_of(t) == Some(PhotoMemberKind::Jpeg) {
                        assert(p.groups[j].jpegs.contains(t));
                    } else {
                        assert(p.groups[j].raws.contains(t));
                    }
                }
            }
        } else {
            assert(q.groups == p.groups);
        }
    }
}

proof fn lemma_second_pass_keeps(groups: Seq<GroupView>, sidecars: Seq<ListedFile>, n: nat)
    requires
        n <= sidecars.len(),
        second_pass(groups, sidecars, n) is Ok,
    ensures
        ({
            let g2 = second_pass(groups, sidecars, n)->Ok_0;
            &&& g2.len() == groups.len()
            &&& forall|i: int| 0 <= i < groups.len() ==> (#[trigger] g2[i]).key == groups[i].key && g2[i].jpegs
                == groups[i].jpegs && g2[i].raws == groups[i].raws
        }),
    decreases n,
{
    if n > 0 {
        lemma_second_pass_keeps(groups, sidecars, (n - 1) as nat);
        let g1 = second_pass(groups, sidecars, (n - 1) as nat)->Ok_0;
        let f = sidecars[n - 1];
        let keys = sidecar_keys(f.relative_path@, false);
        let matching = matching_keys(g1, keys, keys.len());
        if matching.len() > 0 && f.facts is Ok {
            lemma_matching_keys(g1, keys, keys.len());
            let i = find_group(g1, matching.last());
            assert(find_group(g1, matching[matching.len() - 1]) >= 0);
            lemma_find_group(g1, matching.last());
            let g2 = second_pass(groups, sidecars, n)->Ok_0;
            assert forall|j: int| 0 <= j < groups.len() implies (#[trigger] g2[j]).key == groups[j].key && g2[j].jpegs
                == groups[j].jpegs && g2[j].raws == groups[j].raws by {
                assert(g2[j].key == g1[j].key);
            }
        }
    }
}

proof fn lemma_matching_keys(groups: Seq<GroupView>, keys: Seq<Seq<char>>, n: nat)
    requires
        n <= keys.len(),
    ensures
        forall|j: int| 0 <= j < matching_keys(groups, keys, n).len() ==> find_group(groups, #[trigger] matching_keys(groups, keys, n)[j]) >= 0,
    decreases n,
{
    if n > 0 {
        lemma_matching_keys(groups, keys, (n - 1) as nat);
        let m = matching_keys(groups, keys, (n - 1) as nat);
        let r = matching_keys(groups, keys, n);
        assert forall|j: int| 0 <= j < r.len() implies find_group(groups, #[trigger] r[j]) >= 0 by {
            if j < m.len() {
                assert(r[j] == m[j]);
            }
        }
    }
}

/// Indexing keeps every readable JPG and RAW file of the listing: it is
/// among the files of its kind in the asset whose id is its group key.
pub proof fn indexed_files_are_kept(
    files: Seq<ListedFile>,
    sidecars: Seq<ListedFile>,
    groups: Seq<GroupView>,
    idx: PhotoIndex,
    root: Seq<char>,
    indexed_at_ms: u64,
    n: int,
)
    requires
        listing_groups(files, sidecars) == Ok::<Seq<GroupView>, Seq<char>>(groups),
        index_holds(idx, root, indexed_at_ms, groups),
        0 <= n < files.len(),
        kept_member(files[n]),
    ensures
        exists|i: int| 0 <= i < idx.assets@.len() && (#[trigger] idx.assets@[i]).id@ == group_key(files[n].relative_path@, false)
            && match member_kind_of(files[n].relative_path@) {
                Some(PhotoMemberKind::Jpeg) => texts(idx.assets@[i].jpeg_paths@).contains(files[n].relative_path@),
                _ => texts(idx.assets@[i].raw_paths@).contains(files[n].relative_path@),
            },
{
    let p = first_pass(files, files.len());
    lemma_first_pass_keeps(files, files.len());
    let k = group_key(files[n].relative_path@, false);
    let t = files[n].relative_path@;
    let at = find_group(p.groups, k);
    lemma_second_pass_keeps(p.groups, sidecars, sidecars.len());
    lemma_find_group_keys_equal(p.groups, groups, k, groups.len());
    assert(find_group(groups, k) == at);
    assert(groups[at].key == k) by {
        lemma_find_group(p.groups, k);
    }
    let assets = idx.assets@;
    lemma_find_group(p.groups, k);
    assert(0 <= at < groups.len());
    assert(groups_have_assets(assets, groups));
    assert(exists|i: int| 0 <= i < assets.len() && (#[trigger] assets[i]).id@ == groups[at].key);
    let i = choose|i: int| 0 <= i < assets.len() && (#[trigger] assets[i]).id@ == groups[at].key;
    assert(assets_from_groups(assets, groups));
    assert(find_group(groups, assets[i].id@) == at);
    assert(asset_matches(assets[i], groups[at]));
    if member_kind_of(t) == Some(PhotoMemberKind::Jpeg) {
        assert(groups[at].jpegs.contains(t));
        vstd::seq_lib::to_multiset_contains(groups[at].jpegs, t);
        vstd::seq_lib::to_multiset_contains(texts(assets[i].jpeg_paths@), t);
    } else {
        assert(groups[at].raws.contains(t));
        vstd::seq_lib::to_multiset_contains(groups[at].raws, t);
        vstd::seq_lib::to_multiset_contains(texts(assets[i].raw_paths@), t);
    }
}

} // verus!
