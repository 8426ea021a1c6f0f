//! Paths as text.
//!
//! A path is the text of a `/`-separated file-system path. The functions here
//! give the file name, stem and extension of a path, its components, and the
//! relative-path safety rule that guards every "root + relative path" join.
//! They follow `std::path::Path` on Unix: repeated separators and `.` segments
//! after the first are not components, a trailing separator or `/.` does not
//! change the file name, and a leading dot does not start an extension.

use vstd::prelude::*;
use crate::text::{
    ascii_lower_range, chars_eq, ascii_lower_text, chars_of, concat, forward_slash_string, forward_slashes,
    is_blank, is_blank_str, is_space, is_space_char, lemma_forward_slashes_idempotent,
    slice_chars, string_of,
};

verus! {

/// End of the last component: trailing `/` and `/.` are not part of it.
pub open spec fn tail_end(s: Seq<char>, end: int) -> int
    decreases end,
{
    if end <= 0 || end > s.len() {
        if end <= 0 { 0 } else { s.len() as int }
    } else if s[end - 1] == '/' {
        tail_end(s, end - 1)
    } else if end >= 2 && s[end - 1] == '.' && s[end - 2] == '/' {
        tail_end(s, end - 1)
    } else {
        end
    }
}

/// Start of the segment that ends at `end`: just after the previous `/`.
pub open spec fn seg_start(s: Seq<char>, end: int) -> int
    decreases end,
{
    if end <= 0 || end > s.len() {
        0
    } else if s[end - 1] == '/' {
        end
    } else {
        seg_start(s, end - 1)
    }
}

/// Index of the last `.` in `s[lo..end]`, or `-1`.
pub open spec fn last_dot(s: Seq<char>, lo: int, end: int) -> int
    decreases end - lo,
{
    if end <= lo || end > s.len() || lo < 0 {
        -1
    } else if s[end - 1] == '.' {
        end - 1
    } else {
        last_dot(s, lo, end - 1)
    }
}

pub open spec fn name_end(s: Seq<char>) -> int {
    tail_end(s, s.len() as int)
}

pub open spec fn name_start(s: Seq<char>) -> int {
    seg_start(s, name_end(s))
}

/// The text of the last segment (candidate file name).
pub open spec fn last_segment(s: Seq<char>) -> Seq<char> {
    s.subrange(name_start(s), name_end(s))
}

/// `Path::file_name` is `Some`.
pub open spec fn has_file_name(s: Seq<char>) -> bool {
    let n = last_segment(s);
    n.len() > 0 && n != seq!['.'] && n != seq!['.', '.']
}

/// `Path::file_name`, when present.
pub open spec fn file_name_text(s: Seq<char>) -> Seq<char> {
    last_segment(s)
}

pub open spec fn dot_index(s: Seq<char>) -> int {
    last_dot(s, name_start(s), name_end(s))
}

/// `Path::extension` is `Some`: the file name has a dot that is not its first character.
pub open spec fn has_extension(s: Seq<char>) -> bool {
    has_file_name(s) && dot_index(s) > name_start(s)
}

/// `Path::extension`, or the empty text when there is none.
pub open spec fn extension_text(s: Seq<char>) -> Seq<char> {
    if has_extension(s) {
        s.subrange(dot_index(s) + 1, name_end(s))
    } else {
        seq![]
    }
}

/// `path.with_extension("")`: the path cut right after the file stem.
pub open spec fn without_extension(s: Seq<char>) -> Seq<char> {
    if !has_file_name(s) {
        s
    } else if has_extension(s) {
        s.subrange(0, dot_index(s))
    } else {
        s.subrange(0, name_end(s))
    }
}

/// A segment `..` occupies `s[k..k+2]`.
pub open spec fn parent_segment_at(s: Seq<char>, k: int) -> bool {
    &&& 0 <= k
    &&& k + 2 <= s.len()
    &&& s[k] == '.'
    &&& s[k + 1] == '.'
    &&& (k == 0 || s[k - 1] == '/')
    &&& (k + 2 == s.len() || s[k + 2] == '/')
}

/// The path begins with a `.` segment (a leading `Component::CurDir`).
pub open spec fn leading_cur_dir(s: Seq<char>) -> bool {
    s.len() >= 1 && s[0] == '.' && (s.len() == 1 || s[1] == '/')
}

pub open spec fn is_absolute(s: Seq<char>) -> bool {
    s.len() > 0 && s[0] == '/'
}

/// Every component of a relative path is a normal name: not blank, not
/// absolute, no leading `.` and no `..` anywhere.
pub open spec fn is_safe_relative(s: Seq<char>) -> bool {
    &&& !is_blank(s)
    &&& all_normal(s)
}

/// Every component of the path is a normal name: not absolute, no leading
/// `.` and no `..` anywhere.
pub open spec fn all_normal(s: Seq<char>) -> bool {
    &&& !is_absolute(s)
    &&& !leading_cur_dir(s)
    &&& forall|k: int| !parent_segment_at(s, k)
}

/// Positions that describe the file name of a path.
pub struct NameParts {
    pub start: usize,
    pub end: usize,
    pub dot: usize,
    pub has_name: bool,
    pub has_ext: bool,
}

/// Computes the file-name positions of `v`.
pub fn name_parts(v: &Vec<char>) -> (p: NameParts)
    ensures
        p.end as int == name_end(v@),
        p.start as int == name_start(v@),
        p.start <= p.end <= v@.len(),
        p.has_name == has_file_name(v@),
        p.has_ext == has_extension(v@),
        p.has_ext ==> p.dot as int == dot_index(v@) && p.start < p.dot < p.end,
{
    let mut end: usize = v.len();
    while end > 0 && (v[end - 1] == '/' || (end >= 2 && v[end - 1] == '.' && v[end - 2] == '/'))
        invariant
            end <= v@.len(),
            tail_end(v@, end as int) == tail_end(v@, v@.len() as int),
        decreases end,
    {
        end = end - 1;
    }
    let mut start: usize = end;
    while start > 0 && v[start - 1] != '/'
        invariant
            start <= end <= v@.len(),
            seg_start(v@, start as int) == seg_start(v@, end as int),
        decreases start,
    {
        start = start - 1;
    }
    let len = end - start;
    let has_name = len > 0 && !(len == 1 && v[start] == '.') && !(len == 2 && v[start] == '.'
        && v[start + 1] == '.');
    proof {
        let n = v@.subrange(start as int, end as int);
        if len == 1 && v@[start as int] == '.' {
            assert(n =~= seq!['.']);
        }
        if len == 2 && v@[start as int] == '.' && v@[start + 1] == '.' {
            assert(n =~= seq!['.', '.']);
        }
        if n =~= seq!['.'] {
            assert(n[0] == '.');
        }
        if n =~= seq!['.', '.'] {
            assert(n[0] == '.' && n[1] == '.');
        }
    }
    let mut j: usize = end;
    while j > start && v[j - 1] != '.'
        invariant
            start <= j <= end <= v@.len(),
            last_dot(v@, start as int, j as int) == last_dot(v@, start as int, end as int),
        decreases j,
    {
        j = j - 1;
    }
    let has_ext = has_name && j > start && j - 1 > start;
    let dot: usize = if j > start {
        j - 1
    } else {
        0
    };
    NameParts { start, end, dot, has_name, has_ext }
}

/// `path.extension()` lower-cased with ASCII rules, or the empty string.
pub fn extension_of(path: &str) -> (r: String)
    ensures
        r@ == ascii_lower_text(extension_text(path@)),
{
    let v = chars_of(path);
    let p = name_parts(&v);
    if p.has_ext {
        let low = ascii_lower_range(&v, p.dot + 1, p.end);
        string_of(low.as_slice())
    } else {
        proof {
            assert(ascii_lower_text(seq![]) =~= seq![]);
        }
        String::new()
    }
}

/// `path.with_extension("")`.
pub fn strip_extension(path: &str) -> (r: String)
    ensures
        r@ == without_extension(path@),
{
    let v = chars_of(path);
    let p = name_parts(&v);
    if !p.has_name {
        path.to_owned()
    } else if p.has_ext {
        let s = slice_chars(&v, 0, p.dot);
        string_of(s.as_slice())
    } else {
        let s = slice_chars(&v, 0, p.end);
        string_of(s.as_slice())
    }
}

/// `path.file_name()` as text.
pub fn file_name(path: &str) -> (r: Option<String>)
    ensures
        r.is_some() == has_file_name(path@),
        r matches Some(n) ==> n@ == file_name_text(path@),
{
    let v = chars_of(path);
    let p = name_parts(&v);
    if p.has_name {
        let s = slice_chars(&v, p.start, p.end);
        Some(string_of(s.as_slice()))
    } else {
        None
    }
}

/// The text that the interface shows for a path: every `\` becomes `/`.
pub open spec fn display_text(s: Seq<char>) -> Seq<char> {
    forward_slashes(s)
}

/// Renders a path for display with forward slashes only.
pub fn display_path(path: &str) -> (r: String)
    ensures
        r@ == display_text(path@),
{
    forward_slash_string(path)
}

/// Display text is a fixed point: rendering it again changes nothing, and it
/// holds no backslash.
pub proof fn display_path_is_stable(s: Seq<char>)
    ensures
        display_text(display_text(s)) == display_text(s),
        forall|i: int| 0 <= i < display_text(s).len() ==> display_text(s)[i] != '\\',
{
    lemma_forward_slashes_idempotent(s);
}

/// Checks the relative-path rule on a character buffer.
pub fn is_safe_relative_chars(v: &Vec<char>) -> (r: bool)
    ensures
        r == is_safe_relative(v@),
{
    let n = v.len();
    let mut all_space = true;
    let mut i: usize = 0;
    while i < n
        invariant
            n == v@.len(),
            i <= n,
            all_space == (forall|k: int| 0 <= k < i ==> is_space(#[trigger] v@[k])),
        decreases n - i,
    {
        if !is_space_char(v[i]) {
            all_space = false;
        }
        i = i + 1;
    }
    if all_space {
        return false;
    }
    all_normal_chars(v)
}

/// Checks that every component of the path in `v` is a normal name.
pub fn all_normal_chars(v: &Vec<char>) -> (r: bool)
    ensures
        r == all_normal(v@),
{
    let n = v.len();
    if n > 0 && v[0] == '/' {
        return false;
    }
    if n >= 1 && v[0] == '.' && (n == 1 || v[1] == '/') {
        return false;
    }
    let mut k: usize = 0;
    while k < n && n - k >= 2
        invariant
            n == v@.len(),
            k <= n,
            forall|m: int| 0 <= m < k ==> !parent_segment_at(v@, m),
        decreases n - k,
    {
        if v[k] == '.' && v[k + 1] == '.' && (k == 0 || v[k - 1] == '/') && (k + 2 == n || v[k
            + 2] == '/') {
            assert(parent_segment_at(v@, k as int));
            return false;
        }
        k = k + 1;
    }
    assert forall|m: int| !parent_segment_at(v@, m) by {
        if 0 <= m && m + 2 <= n {
            assert(m < k);
        }
    }
    true
}

/// Accepts `value` only as a safe relative path; `label` names the path in the
/// error text.
pub fn safe_relative_path(value: &str, label: &str) -> (r: Result<String, String>)
    ensures
        is_safe_relative(value@) ==> (r matches Ok(p) && p@ == value@),
        !is_safe_relative(value@) ==> (r matches Err(e) && e@ == label@ + (
        if is_blank(value@) || is_absolute(value@) {
            "必须是安全相对路径"@
        } else {
            "包含不安全片段"@
        })),
{
    let v = chars_of(value);
    if is_blank_str(value) || (v.len() > 0 && v[0] == '/') {
        return Err(concat(label, "必须是安全相对路径"));
    }
    if !is_safe_relative_chars(&v) {
        return Err(concat(label, "包含不安全片段"));
    }
    Ok(value.to_owned())
}

// ---------------------------------------------------------------------------
// Components
// ---------------------------------------------------------------------------
/// The text split at every `/` (empty pieces kept).
pub open spec fn segments(s: Seq<char>) -> Seq<Seq<char>>
    decreases s.len(),
{
    if s.len() == 0 {
        seq![seq![]]
    } else if s.last() == '/' {
        segments(s.drop_last()).push(seq![])
    } else {
        let prev = segments(s.drop_last());
        prev.update(prev.len() - 1, prev.last().push(s.last()))
    }
}

pub proof fn lemma_segments_nonempty(s: Seq<char>)
    ensures
        segments(s).len() >= 1,
    decreases s.len(),
{
    if s.len() > 0 {
        lemma_segments_nonempty(s.drop_last());
    }
}

/// Keeps the segments that are names: drops empty and `.` pieces.
pub open spec fn named_segments(segs: Seq<Seq<char>>) -> Seq<Seq<char>>
    decreases segs.len(),
{
    if segs.len() == 0 {
        seq![]
    } else {
        let rest = named_segments(segs.drop_last());
        let l = segs.last();
        if l.len() == 0 || l == seq!['.'] {
            rest
        } else {
            rest.push(l)
        }
    }
}

/// `Path::components`, each as text: the root is `/`, a leading current
/// directory is `.`, every other component is its name (`..` included).
pub open spec fn components(s: Seq<char>) -> Seq<Seq<char>> {
    let named = named_segments(segments(s));
    if is_absolute(s) {
        seq![seq!['/']] + named
    } else if leading_cur_dir(s) {
        seq![seq!['.']] + named
    } else {
        named
    }
}

/// `Path::starts_with`: the components of `base` are a prefix of those of `path`.
pub open spec fn path_has_prefix(path: Seq<char>, base: Seq<char>) -> bool {
    let p = components(path);
    let b = components(base);
    b.len() <= p.len() && p.subrange(0, b.len() as int) == b
}

/// `Path == Path`: equal components.
pub open spec fn same_path(a: Seq<char>, b: Seq<char>) -> bool {
    components(a) == components(b)
}

/// The named segments of `v`, computed in one pass.
pub fn named_segments_of(v: &Vec<char>) -> (r: Vec<Vec<char>>)
    ensures
        r@.map_values(|x: Vec<char>| x@) == named_segments(segments(v@)),
{
    let mut out: Vec<Vec<char>> = Vec::new();
    let mut cur: Vec<char> = Vec::new();
    let mut i: usize = 0;
    let ghost dot: Seq<char> = seq!['.'];
    while i < v.len()
        invariant
            i <= v@.len(),
            segments(v@.subrange(0, i as int)).len() >= 1,
            cur@ == segments(v@.subrange(0, i as int)).last(),
            out@.map_values(|x: Vec<char>| x@) == named_segments(
                segments(v@.subrange(0, i as int)).drop_last(),
            ),
            dot == seq!['.'],
        decreases v@.len() - i,
    {
        let ghost pre = v@.subrange(0, i as int);
        let ghost next = v@.subrange(0, i + 1);
        proof {
            assert(next.drop_last() =~= pre);
            assert(next.last() == v@[i as int]);
            lemma_segments_nonempty(pre);
        }
        if v[i] == '/' {
            let ghost segs = segments(pre);
            assert(segments(next) == segs.push(seq![]));
            assert(segments(next).drop_last() =~= segs);
            assert(segs =~= segs.drop_last().push(segs.last()));
            if cur.len() == 0 || (cur.len() == 1 && cur[0] == '.') {
                proof {
                    if cur.len() == 1 {
                        assert(cur@ =~= dot);
                    }
                }
                cur = Vec::new();
            } else {
                proof {
                    if cur@ =~= dot {
                        assert(cur@.len() == 1 && cur@[0] == '.');
                    }
                }
                let finished = cur;
                cur = Vec::new();
                out.push(finished);
                assert(out@.map_values(|x: Vec<char>| x@) =~= named_segments(
                    segs.drop_last(),
                ).push(finished@));
            }
            assert(cur@ =~= segments(next).last());
        } else {
            let ghost segs = segments(pre);
            assert(segments(next) == segs.update(segs.len() - 1, segs.last().push(v@[i as int])));
            assert(segments(next).drop_last() =~= segs.drop_last());
            cur.push(v[i]);
        }
        i = i + 1;
    }
    proof {
        assert(v@.subrange(0, v@.len() as int) =~= v@);
        lemma_segments_nonempty(v@);
    }
    let ghost segs = segments(v@);
    assert(segs =~= segs.drop_last().push(segs.last()));
    if cur.len() == 0 || (cur.len() == 1 && cur[0] == '.') {
        proof {
            if cur.len() == 1 {
                assert(cur@ =~= dot);
            }
        }
    } else {
        proof {
            if cur@ =~= dot {
                assert(cur@.len() == 1 && cur@[0] == '.');
            }
        }
        out.push(cur);
    }
    assert(out@.map_values(|x: Vec<char>| x@) =~= named_segments(segs));
    out
}

/// `Path::components` of `path`, each as a character buffer.
pub fn components_of(path: &str) -> (r: Vec<Vec<char>>)
    ensures
        r@.map_values(|x: Vec<char>| x@) == components(path@),
{
    let v = chars_of(path);
    let named = named_segments_of(&v);
    let mut out: Vec<Vec<char>> = Vec::new();
    if v.len() > 0 && v[0] == '/' {
        let mut root: Vec<char> = Vec::new();
        root.push('/');
        out.push(root);
    } else if v.len() >= 1 && v[0] == '.' && (v.len() == 1 || v[1] == '/') {
        let mut cur: Vec<char> = Vec::new();
        cur.push('.');
        out.push(cur);
    }
    let ghost head = out@.map_values(|x: Vec<char>| x@);
    proof {
        if is_absolute(v@) {
            assert(head[0] =~= seq!['/']);
            assert(head =~= seq![seq!['/']]);
        } else if leading_cur_dir(v@) {
            assert(head[0] =~= seq!['.']);
            assert(head =~= seq![seq!['.']]);
        } else {
            assert(head =~= seq![]);
        }
    }
    let mut named = named;
    let ghost named_view = named@.map_values(|x: Vec<char>| x@);
    out.append(&mut named);
    assert(out@.map_values(|x: Vec<char>| x@) =~= head + named_view);
    out
}

/// Whether the component list `p` begins with the component list `b`.
fn components_prefix(p: &Vec<Vec<char>>, b: &Vec<Vec<char>>) -> (r: bool)
    ensures
        r == (b@.len() <= p@.len() && p@.map_values(|x: Vec<char>| x@).subrange(
            0,
            b@.len() as int,
        ) == b@.map_values(|x: Vec<char>| x@)),
{
    let ghost pv = p@.map_values(|x: Vec<char>| x@);
    let ghost bv = b@.map_values(|x: Vec<char>| x@);
    if b.len() > p.len() {
        return false;
    }
    let mut i: usize = 0;
    while i < b.len()
        invariant
            b@.len() <= p@.len(),
            i <= b@.len(),
            pv == p@.map_values(|x: Vec<char>| x@),
            bv == b@.map_values(|x: Vec<char>| x@),
            forall|k: int| 0 <= k < i ==> pv[k] == bv[k],
        decreases b@.len() - i,
    {
        if !chars_eq(&p[i], &b[i]) {
            assert(pv.subrange(0, bv.len() as int)[i as int] != bv[i as int]);
            return false;
        }
        i = i + 1;
    }
    assert(pv.subrange(0, bv.len() as int) =~= bv);
    true
}

/// `Path::new(path).starts_with(base)`.
pub fn path_starts_with(path: &str, base: &str) -> (r: bool)
    ensures
        r == path_has_prefix(path@, base@),
{
    let p = components_of(path);
    let b = components_of(base);
    components_prefix(&p, &b)
}

/// `Path::new(a) == Path::new(b)`.
pub fn paths_equal(a: &str, b: &str) -> (r: bool)
    ensures
        r == same_path(a@, b@),
{
    let p = components_of(a);
    let q = components_of(b);
    let ghost pv = p@.map_values(|x: Vec<char>| x@);
    let ghost qv = q@.map_values(|x: Vec<char>| x@);
    if p.len() != q.len() {
        assert(pv.len() != qv.len());
        return false;
    }
    let r = components_prefix(&p, &q);
    assert(pv.subrange(0, qv.len() as int) =~= pv);
    r
}

/// Equal paths are prefixes of each other.
pub proof fn same_path_is_prefix(a: Seq<char>, b: Seq<char>)
    requires
        same_path(a, b),
    ensures
        path_has_prefix(a, b),
        path_has_prefix(b, a),
{
    assert(components(a).subrange(0, components(b).len() as int) =~= components(a));
}

/// `Path::join`: an absolute `rel` replaces `base`; otherwise `rel` is added
/// after a separator (none after an empty `base` or a trailing separator).
pub open spec fn path_join(base: Seq<char>, rel: Seq<char>) -> Seq<char> {
    if is_absolute(rel) {
        rel
    } else if base.len() == 0 || base.last() == '/' {
        base + rel
    } else {
        base + seq!['/'] + rel
    }
}

pub fn join_path(base: &str, rel: &str) -> (r: String)
    ensures
        r@ == path_join(base@, rel@),
{
    let r = chars_of(rel);
    if r.len() > 0 && r[0] == '/' {
        return rel.to_owned();
    }
    let b = chars_of(base);
    if b.len() == 0 || b[b.len() - 1] == '/' {
        crate::text::concat(base, rel)
    } else {
        proof {
            reveal_strlit("/");
        }
        crate::text::concat3(base, "/", rel)
    }
}

/// `path.with_extension(ext)`: the file stem followed by `.` and `ext`; a
/// path without a file name is unchanged.
pub open spec fn with_extension_text(s: Seq<char>, ext: Seq<char>) -> Seq<char> {
    if has_file_name(s) {
        without_extension(s) + seq!['.'] + ext
    } else {
        s
    }
}

pub fn with_extension(path: &str, ext: &str) -> (r: String)
    ensures
        r@ == with_extension_text(path@, ext@),
{
    match file_name(path) {
        Some(_) => {
            let stem = strip_extension(path);
            proof {
                reveal_strlit(".");
            }
            crate::text::concat3(stem.as_str(), ".", ext)
        },
        None => path.to_owned(),
    }
}

} // verus!
