//! JPEG header segments: walking the segments before the image data,
//! collecting the XMP and IPTC sidecars, removing XMP packets and inserting
//! sidecars again after an image is re-encoded.

use vstd::prelude::*;

verus! {

/// What went wrong while walking a JPEG header.
#[derive(Debug, Clone, Copy, PartialEq, Eq, Structural)]
pub enum JpegFault {
    /// A segment does not start with 0xFF.
    BadMarker,
    /// The file ends inside a marker.
    IncompleteMarker,
    /// The file ends inside a segment length.
    IncompleteLength,
    /// A segment length below 2.
    BadLength,
    /// A segment runs past the end of the file.
    OutOfRange,
    /// The file ends before a start-of-scan or end-of-image marker.
    MissingEnd,
}

/// Markers without a length (TEM and the restart markers).
pub open spec fn standalone_marker(m: u8) -> bool {
    m == 0x01 || (0xd0 <= m && m <= 0xd7)
}

/// Start of scan or end of image: the header ends here.
pub open spec fn final_marker(m: u8) -> bool {
    m == 0xd9 || m == 0xda
}

/// First position at or after `p` that is not a 0xFF fill byte.
pub open spec fn fill_end(j: Seq<u8>, p: int) -> int
    decreases j.len() - p,
{
    if 0 <= p < j.len() && j[p] == 0xff {
        fill_end(j, p + 1)
    } else {
        p
    }
}

pub proof fn lemma_fill_end(j: Seq<u8>, p: int)
    requires
        0 <= p,
    ensures
        p <= fill_end(j, p),
        fill_end(j, p) >= j.len() || j[fill_end(j, p)] != 0xff,
        forall|k: int| p <= k < fill_end(j, p) ==> j[k] == 0xff,
        p <= j.len() ==> fill_end(j, p) <= j.len(),
    decreases j.len() - p,
{
    if 0 <= p < j.len() && j[p] == 0xff {
        lemma_fill_end(j, p + 1);
    }
}

/// The parts of a header, each `(marker, start, payload start, end)`: a
/// standalone marker has an empty payload right after it; a segment's
/// payload follows its two length bytes. `end` says how the walk stopped:
/// at the final marker that starts at the given position, or with a fault.
pub struct Walk {
    pub parts: Seq<(u8, int, int, int)>,
    pub end: Result<int, JpegFault>,
}

pub open spec fn big_endian(hi: u8, lo: u8) -> int {
    hi as int * 256 + lo as int
}

/// The walk of a header from position `p`.
pub open spec fn walk(j: Seq<u8>, p: int) -> Walk
    decreases j.len() - p,
{
    if p < 0 || p >= j.len() {
        Walk { parts: seq![], end: Err(JpegFault::MissingEnd) }
    } else if j[p] != 0xff {
        Walk { parts: seq![], end: Err(JpegFault::BadMarker) }
    } else {
        let q = fill_end(j, p);
        proof {
            lemma_fill_end(j, p);
        }
        if q >= j.len() {
            Walk { parts: seq![], end: Err(JpegFault::IncompleteMarker) }
        } else {
            let m = j[q];
            let a = q + 1;
            if final_marker(m) {
                Walk { parts: seq![], end: Ok(p) }
            } else if standalone_marker(m) {
                let rest = walk(j, a);
                Walk { parts: seq![(m, p, a, a)] + rest.parts, end: rest.end }
            } else if a + 2 > j.len() {
                Walk { parts: seq![], end: Err(JpegFault::IncompleteLength) }
            } else {
                let len = big_endian(j[a], j[a + 1]);
                if len < 2 {
                    Walk { parts: seq![], end: Err(JpegFault::BadLength) }
                } else if a + len > j.len() {
                    Walk { parts: seq![], end: Err(JpegFault::OutOfRange) }
                } else {
                    let rest = walk(j, a + len);
                    Walk { parts: seq![(m, p, a + 2, a + len)] + rest.parts, end: rest.end }
                }
            }
        }
    }
}

/// The walk of a whole header (after the start-of-image marker).
pub open spec fn header(j: Seq<u8>) -> Walk {
    walk(j, 2)
}

/// The bytes start with the start-of-image marker.
pub open spec fn starts_jpeg(j: Seq<u8>) -> bool {
    j.len() >= 2 && j[0] == 0xff && j[1] == 0xd8
}

proof fn lemma_walk_parts_in_range(j: Seq<u8>, p: int)
    requires
        0 <= p,
    ensures
        forall|k: int| 0 <= k < walk(j, p).parts.len() ==> {
            let t = #[trigger] walk(j, p).parts[k];
            p <= t.1 < t.2 <= t.3 <= j.len()
        },
        walk(j, p).end matches Ok(e) ==> p <= e < j.len(),
    decreases j.len() - p,
{
    if p < 0 || p >= j.len() {
    } else if j[p] != 0xff {
    } else {
        lemma_fill_end(j, p);
        let q = fill_end(j, p);
        if q < j.len() {
            let m = j[q];
            let a = q + 1;
            if final_marker(m) {
            } else if standalone_marker(m) {
                lemma_walk_parts_in_range(j, a);
            } else if a + 2 <= j.len() {
                let len = big_endian(j[a], j[a + 1]);
                if len >= 2 && a + len <= j.len() {
                    lemma_walk_parts_in_range(j, a + len);
                }
            }
        }
    }
}

/// Walks a header from position 2: its parts, and where or why the walk stopped.
pub fn header_parts(j: &[u8]) -> (r: (Vec<(u8, usize, usize, usize)>, Result<usize, JpegFault>))
    ensures
        r.0@.map_values(|t: (u8, usize, usize, usize)| (t.0, t.1 as int, t.2 as int, t.3 as int)) == header(j@).parts,
        match header(j@).end {
            Ok(e) => r.1 matches Ok(x) && x == e,
            Err(f) => r.1 matches Err(x) && x == f,
        },
{
    let ghost whole = header(j@);
    let mut parts: Vec<(u8, usize, usize, usize)> = Vec::new();
    let mut p: usize = 2;
    let n = j.len();
    loop
        invariant
            n == j@.len(),
            2 <= p,
            whole == header(j@),
            whole.parts == parts@.map_values(|t: (u8, usize, usize, usize)| (t.0, t.1 as int, t.2 as int, t.3 as int))
                + walk(j@, p as int).parts,
            whole.end == walk(j@, p as int).end,
        decreases n - p,
    {
        let ghost here = walk(j@, p as int);
        let ghost pv = parts@.map_values(|t: (u8, usize, usize, usize)| (t.0, t.1 as int, t.2 as int, t.3 as int));
        if p >= n {
            assert(pv + here.parts =~= pv);
            return (parts, Err(JpegFault::MissingEnd));
        }
        if j[p] != 0xff {
            assert(pv + here.parts =~= pv);
            return (parts, Err(JpegFault::BadMarker));
        }
        proof {
            lemma_fill_end(j@, p as int);
        }
        let mut q = p;
        while q < n && j[q] == 0xff
            invariant
                n == j@.len(),
                p <= q <= n,
                fill_end(j@, q as int) == fill_end(j@, p as int),
            decreases n - q,
        {
            q = q + 1;
        }
        if q >= n {
            assert(pv + here.parts =~= pv);
            return (parts, Err(JpegFault::IncompleteMarker));
        }
        let m = j[q];
        let a = q + 1;
        if m == 0xd9 || m == 0xda {
            assert(pv + here.parts =~= pv);
            return (parts, Ok(p));
        }
        if m == 0x01 || (0xd0 <= m && m <= 0xd7) {
            let ghost rest = walk(j@, a as int);
            parts.push((m, p, a, a));
            proof {
                assert(parts@.map_values(|t: (u8, usize, usize, usize)| (t.0, t.1 as int, t.2 as int, t.3 as int))
                    =~= pv.push((m, p as int, a as int, a as int)));
                assert(pv + here.parts =~= pv.push((m, p as int, a as int, a as int)) + rest.parts);
            }
            p = a;
            continue;
        }
        if n - a < 2 {
            assert(pv + here.parts =~= pv);
            return (parts, Err(JpegFault::IncompleteLength));
        }
        let len: usize = (j[a] as usize) * 256 + (j[a + 1] as usize);
        assert(len == big_endian(j@[a as int], j@[a + 1]));
        if len < 2 {
            assert(pv + here.parts =~= pv);
            return (parts, Err(JpegFault::BadLength));
        }
        if len > n - a {
            assert(pv + here.parts =~= pv);
            return (parts, Err(JpegFault::OutOfRange));
        }
        let end = a + len;
        let ghost rest = walk(j@, end as int);
        parts.push((m, p, a + 2, end));
        proof {
            assert(parts@.map_values(|t: (u8, usize, usize, usize)| (t.0, t.1 as int, t.2 as int, t.3 as int))
                =~= pv.push((m, p as int, a + 2, end as int)));
            assert(pv + here.parts =~= pv.push((m, p as int, a + 2, end as int)) + rest.parts);
        }
        p = end;
    }
}

// ---------------------------------------------------------------------------
// Sidecar prefixes
// ---------------------------------------------------------------------------
/// The bytes that open an XMP packet in an APP1 segment.
pub open spec fn xmp_prefix() -> Seq<u8> {
    seq![104u8, 116u8, 116u8, 112u8, 58u8, 47u8, 47u8, 110u8, 115u8, 46u8, 97u8, 100u8, 111u8, 98u8, 101u8, 46u8, 99u8, 111u8, 109u8, 47u8, 120u8, 97u8, 112u8, 47u8, 49u8, 46u8, 48u8, 47u8, 0u8]
}

/// The bytes that open EXIF data in an APP1 segment.
pub open spec fn exif_prefix() -> Seq<u8> {
    seq![69u8, 120u8, 105u8, 102u8, 0u8, 0u8]
}

fn xmp_prefix_bytes() -> (r: Vec<u8>)
    ensures
        r@ == xmp_prefix(),
{
    let mut v: Vec<u8> = Vec::new();
    v.push(104);
    v.push(116);
    v.push(116);
    v.push(112);
    v.push(58);
    v.push(47);
    v.push(47);
    v.push(110);
    v.push(115);
    v.push(46);
    v.push(97);
    v.push(100);
    v.push(111);
    v.push(98);
    v.push(101);
    v.push(46);
    v.push(99);
    v.push(111);
    v.push(109);
    v.push(47);
    v.push(120);
    v.push(97);
    v.push(112);
    v.push(47);
    v.push(49);
    v.push(46);
    v.push(48);
    v.push(47);
    v.push(0);
    assert(v@ =~= xmp_prefix());
    v
}

fn exif_prefix_bytes() -> (r: Vec<u8>)
    ensures
        r@ == exif_prefix(),
{
    let mut v: Vec<u8> = Vec::new();
    v.push(69);
    v.push(120);
    v.push(105);
    v.push(102);
    v.push(0);
    v.push(0);
    assert(v@ =~= exif_prefix());
    v
}

/// `j[lo..hi]` starts with `prefix`.
pub open spec fn range_starts_with(j: Seq<u8>, lo: int, hi: int, prefix: Seq<u8>) -> bool {
    hi - lo >= prefix.len() && j.subrange(lo, lo + prefix.len()) == prefix
}

fn range_has_prefix(j: &[u8], lo: usize, hi: usize, prefix: &Vec<u8>) -> (r: bool)
    requires
        lo <= hi <= j@.len(),
    ensures
        r == range_starts_with(j@, lo as int, hi as int, prefix@),
{
    if hi - lo < prefix.len() {
        return false;
    }
    let mut i: usize = 0;
    while i < prefix.len()
        invariant
            i <= prefix@.len(),
            lo + prefix@.len() <= hi <= j@.len(),
            forall|k: int| 0 <= k < i ==> j@[lo + k] == prefix@[k],
        decreases prefix@.len() - i,
    {
        if j[lo + i] != prefix[i] {
            assert(j@.subrange(lo as int, lo + prefix@.len())[i as int] != prefix@[i as int]);
            return false;
        }
        i = i + 1;
    }
    assert(j@.subrange(lo as int, lo + prefix@.len()) =~= prefix@);
    true
}

// ---------------------------------------------------------------------------
// Collecting sidecars
// ---------------------------------------------------------------------------
/// The XMP packets and IPTC segments of a JPEG header.
#[derive(Debug)]
pub struct JpegSidecars {
    pub xmp_packets: Vec<Vec<u8>>,
    pub iptc_segments: Vec<Vec<u8>>,
}

pub open spec fn packets_view(s: Seq<Vec<u8>>) -> Seq<Seq<u8>> {
    s.map_values(|v: Vec<u8>| v@)
}

/// Most bytes of XMP and IPTC data a header may carry.
pub const MAX_JPEG_SIDECAR_BYTES: usize = 4194304;

pub open spec fn walk_message(f: JpegFault) -> Seq<char> {
    match f {
        JpegFault::BadMarker => "JPG 段标记无效"@,
        JpegFault::IncompleteMarker => "JPG 段标记不完整"@,
        JpegFault::IncompleteLength => "JPG 段长度不完整"@,
        JpegFault::BadLength => "JPG 段长度无效"@,
        JpegFault::OutOfRange => "JPG 段超出文件范围"@,
        JpegFault::MissingEnd => "JPG 文件缺少扫描或结束标记"@,
    }
}

pub open spec fn output_message(f: JpegFault) -> Seq<char> {
    match f {
        JpegFault::BadMarker => "输出 JPG 段标记无效"@,
        JpegFault::IncompleteMarker => "输出 JPG 段标记不完整"@,
        JpegFault::IncompleteLength => "输出 JPG 段长度不完整"@,
        JpegFault::BadLength => "输出 JPG 段长度无效"@,
        JpegFault::OutOfRange => "输出 JPG 段超出文件范围"@,
        JpegFault::MissingEnd => "输出 JPG 文件缺少扫描或结束标记"@,
    }
}

fn walk_error(f: JpegFault) -> (r: String)
    ensures
        r@ == walk_message(f),
{
    match f {
        JpegFault::BadMarker => "JPG 段标记无效".to_owned(),
        JpegFault::IncompleteMarker => "JPG 段标记不完整".to_owned(),
        JpegFault::IncompleteLength => "JPG 段长度不完整".to_owned(),
        JpegFault::BadLength => "JPG 段长度无效".to_owned(),
        JpegFault::OutOfRange => "JPG 段超出文件范围".to_owned(),
        JpegFault::MissingEnd => "JPG 文件缺少扫描或结束标记".to_owned(),
    }
}

fn output_error(f: JpegFault) -> (r: String)
    ensures
        r@ == output_message(f),
{
    match f {
        JpegFault::BadMarker => "输出 JPG 段标记无效".to_owned(),
        JpegFault::IncompleteMarker => "输出 JPG 段标记不完整".to_owned(),
        JpegFault::IncompleteLength => "输出 JPG 段长度不完整".to_owned(),
        JpegFault::BadLength => "输出 JPG 段长度无效".to_owned(),
        JpegFault::OutOfRange => "输出 JPG 段超出文件范围".to_owned(),
        JpegFault::MissingEnd => "输出 JPG 文件缺少扫描或结束标记".to_owned(),
    }
}

/// An APP1 segment holding an XMP packet.
pub open spec fn is_xmp_part(j: Seq<u8>, t: (u8, int, int, int)) -> bool {
    t.0 == 0xe1 && range_starts_with(j, t.2, t.3, xmp_prefix())
}

/// The sidecars gathered from the first `n` parts, with their total size,
/// or why gathering stopped.
pub struct Gathered {
    pub xmp: Seq<Seq<u8>>,
    pub iptc: Seq<Seq<u8>>,
    pub total: int,
    pub error: Option<Seq<char>>,
}

pub open spec fn gather(j: Seq<u8>, parts: Seq<(u8, int, int, int)>, n: nat) -> Gathered
    decreases n,
{
    if n == 0 {
        Gathered { xmp: seq![], iptc: seq![], total: 0, error: None }
    } else {
        let g = gather(j, parts, (n - 1) as nat);
        let t = parts[n - 1];
        if g.error is Some {
            g
        } else if is_xmp_part(j, t) || t.0 == 0xed {
            let data = if is_xmp_part(j, t) {
                j.subrange(t.2 + xmp_prefix().len(), t.3)
            } else {
                j.subrange(t.2, t.3)
            };
            let total = g.total + data.len();
            if total > usize::MAX {
                Gathered { error: Some("JPG 附加元数据大小溢出"@), ..g }
            } else if total > MAX_JPEG_SIDECAR_BYTES {
                Gathered { error: Some("JPG 的 XMP/IPTC 元数据超过 4 MB 安全限制"@), ..g }
            } else if is_xmp_part(j, t) {
                Gathered { xmp: g.xmp.push(data), total, ..g }
            } else {
                Gathered { iptc: g.iptc.push(data), total, ..g }
            }
        } else {
            g
        }
    }
}

proof fn lemma_gather_error_stays(j: Seq<u8>, parts: Seq<(u8, int, int, int)>, n: nat, m: nat)
    requires
        n <= m,
        gather(j, parts, n).error is Some,
    ensures
        gather(j, parts, m) == gather(j, parts, n),
    decreases m,
{
    if n < m {
        lemma_gather_error_stays(j, parts, n, (m - 1) as nat);
    }
}

/// The XMP packets and IPTC segments of a JPEG, or why they cannot be read.
pub open spec fn sidecars_of(j: Seq<u8>) -> Result<(Seq<Seq<u8>>, Seq<Seq<u8>>), Seq<char>> {
    if !starts_jpeg(j) {
        Err("文件不是有效的 JPG"@)
    } else {
        let w = header(j);
        let g = gather(j, w.parts, w.parts.len());
        if g.error is Some {
            Err(g.error->0)
        } else {
            match w.end {
                Ok(_) => Ok((g.xmp, g.iptc)),
                Err(f) => Err(walk_message(f)),
            }
        }
    }
}

fn copy_range(j: &[u8], lo: usize, hi: usize) -> (r: Vec<u8>)
    requires
        lo <= hi <= j@.len(),
    ensures
        r@ == j@.subrange(lo as int, hi as int),
{
    let mut out: Vec<u8> = Vec::new();
    let mut i = lo;
    while i < hi
        invariant
            lo <= i <= hi <= j@.len(),
            out@ == j@.subrange(lo as int, i as int),
        decreases hi - i,
    {
        out.push(j[i]);
        i = i + 1;
    }
    out
}

pub open spec fn part_view(t: (u8, usize, usize, usize)) -> (u8, int, int, int) {
    (t.0, t.1 as int, t.2 as int, t.3 as int)
}

/// Collects the XMP packets (without their prefix) and IPTC segments of a
/// JPEG header, at most 4 MiB together.
pub fn extract_jpeg_sidecars(jpeg: &[u8]) -> (r: Result<JpegSidecars, String>)
    ensures
        match sidecars_of(jpeg@) {
            Ok((x, i)) => r matches Ok(s) && packets_view(s.xmp_packets@) == x && packets_view(s.iptc_segments@) == i,
            Err(e) => r matches Err(m) && m@ == e,
        },
{
    if jpeg.len() < 2 || jpeg[0] != 0xff || jpeg[1] != 0xd8 {
        return Err("文件不是有效的 JPG".to_owned());
    }
    let (parts, end) = header_parts(jpeg);
    let ghost w = header(jpeg@);
    proof {
        lemma_walk_parts_in_range(jpeg@, 2);
    }
    let prefix = xmp_prefix_bytes();
    let mut xmp: Vec<Vec<u8>> = Vec::new();
    let mut iptc: Vec<Vec<u8>> = Vec::new();
    let mut total: usize = 0;
    let mut k: usize = 0;
    while k < parts.len()
        invariant
            k <= parts@.len(),
            w == header(jpeg@),
            parts@.map_values(|t: (u8, usize, usize, usize)| (t.0, t.1 as int, t.2 as int, t.3 as int)) == w.parts,
            forall|x: int| 0 <= x < w.parts.len() ==> {
                let t = #[trigger] w.parts[x];
                2 <= t.1 < t.2 <= t.3 <= jpeg@.len()
            },
            prefix@ == xmp_prefix(),
            starts_jpeg(jpeg@),
            ({
                let g = gather(jpeg@, w.parts, k as nat);
                &&& g.error is None
                &&& packets_view(xmp@) == g.xmp
                &&& packets_view(iptc@) == g.iptc
                &&& total == g.total
            }),
        decreases parts@.len() - k,
    {
        let (m, _start, ps, pe) = parts[k];
        let ghost t = w.parts[k as int];
        assert(t == (m, _start as int, ps as int, pe as int));
        let is_xmp = m == 0xe1 && range_has_prefix(jpeg, ps, pe, &prefix);
        if is_xmp || m == 0xed {
            let lo = if is_xmp { ps + prefix.len() } else { ps };
            let data = copy_range(jpeg, lo, pe);
            let size = pe - lo;
            assert(size == jpeg@.subrange(lo as int, pe as int).len());
            if total > usize::MAX - size {
                proof {
                    lemma_gather_error_stays(jpeg@, w.parts, (k + 1) as nat, w.parts.len());
                }
                return Err("JPG 附加元数据大小溢出".to_owned());
            }
            total = total + size;
            if total > MAX_JPEG_SIDECAR_BYTES {
                proof {
                    lemma_gather_error_stays(jpeg@, w.parts, (k + 1) as nat, w.parts.len());
                }
                return Err("JPG 的 XMP/IPTC 元数据超过 4 MB 安全限制".to_owned());
            }
            if is_xmp {
                let ghost before = packets_view(xmp@);
                xmp.push(data);
                assert(packets_view(xmp@) =~= before.push(jpeg@.subrange(lo as int, pe as int)));
            } else {
                let ghost before = packets_view(iptc@);
                iptc.push(data);
                assert(packets_view(iptc@) =~= before.push(jpeg@.subrange(lo as int, pe as int)));
            }
        }
        k = k + 1;
    }
    match end {
        Ok(_) => Ok(JpegSidecars { xmp_packets: xmp, iptc_segments: iptc }),
        Err(f) => Err(walk_error(f)),
    }
}

// ---------------------------------------------------------------------------
// Removing XMP packets
// ---------------------------------------------------------------------------
/// The bytes the first `n` parts keep: every part but the XMP packets.
pub open spec fn kept_bytes(j: Seq<u8>, parts: Seq<(u8, int, int, int)>, n: nat) -> Seq<u8>
    decreases n,
{
    if n == 0 {
        seq![]
    } else {
        let t = parts[n - 1];
        kept_bytes(j, parts, (n - 1) as nat) + if is_xmp_part(j, t) {
            seq![]
        } else {
            j.subrange(t.1, t.3)
        }
    }
}

/// A JPEG without its XMP packets, or why its header cannot be rewritten.
pub open spec fn stripped(j: Seq<u8>) -> Result<Seq<u8>, Seq<char>> {
    if !starts_jpeg(j) {
        Err("输出文件不是有效的 JPG"@)
    } else {
        let w = header(j);
        match w.end {
            Ok(e) => Ok(j.subrange(0, 2) + kept_bytes(j, w.parts, w.parts.len()) + j.subrange(e, j.len() as int)),
            Err(f) => Err(output_message(f)),
        }
    }
}

fn append_range(out: &mut Vec<u8>, j: &[u8], lo: usize, hi: usize)
    requires
        lo <= hi <= j@.len(),
    ensures
        final(out)@ == old(out)@ + j@.subrange(lo as int, hi as int),
{
    let mut i = lo;
    while i < hi
        invariant
            lo <= i <= hi <= j@.len(),
            out@ == old(out)@ + j@.subrange(lo as int, i as int),
        decreases hi - i,
    {
        out.push(j[i]);
        i = i + 1;
        assert(old(out)@ + j@.subrange(lo as int, i as int) =~= old(out)@ + j@.subrange(lo as int, i - 1) + seq![j@[i - 1]]);
    }
}

/// Removes the XMP packets from a JPEG header; everything else is kept byte for byte.
pub fn strip_jpeg_xmp(jpeg: &[u8]) -> (r: Result<Vec<u8>, String>)
    ensures
        match stripped(jpeg@) {
            Ok(b) => r matches Ok(v) && v@ == b,
            Err(e) => r matches Err(m) && m@ == e,
        },
{
    if jpeg.len() < 2 || jpeg[0] != 0xff || jpeg[1] != 0xd8 {
        return Err("输出文件不是有效的 JPG".to_owned());
    }
    let (parts, end) = header_parts(jpeg);
    let ghost w = header(jpeg@);
    proof {
        lemma_walk_parts_in_range(jpeg@, 2);
    }
    let end_at = match end {
        Ok(e) => e,
        Err(f) => return Err(output_error(f)),
    };
    let prefix = xmp_prefix_bytes();
    let mut out: Vec<u8> = Vec::new();
    append_range(&mut out, jpeg, 0, 2);
    let mut k: usize = 0;
    while k < parts.len()
        invariant
            k <= parts@.len(),
            w == header(jpeg@),
            parts@.map_values(|t: (u8, usize, usize, usize)| (t.0, t.1 as int, t.2 as int, t.3 as int)) == w.parts,
            forall|x: int| 0 <= x < w.parts.len() ==> {
                let t = #[trigger] w.parts[x];
                2 <= t.1 < t.2 <= t.3 <= jpeg@.len()
            },
            prefix@ == xmp_prefix(),
            out@ == jpeg@.subrange(0, 2) + kept_bytes(jpeg@, w.parts, k as nat),
        decreases parts@.len() - k,
    {
        let (m, start, ps, pe) = parts[k];
        let ghost t = w.parts[k as int];
        assert(t == (m, start as int, ps as int, pe as int));
        let is_xmp = m == 0xe1 && range_has_prefix(jpeg, ps, pe, &prefix);
        let ghost before = out@;
        if !is_xmp {
            append_range(&mut out, jpeg, start, pe);
        }
        assert(out@ =~= jpeg@.subrange(0, 2) + kept_bytes(jpeg@, w.parts, (k + 1) as nat));
        k = k + 1;
    }
    append_range(&mut out, jpeg, end_at, jpeg.len());
    Ok(out)
}

// ---------------------------------------------------------------------------
// Inserting sidecars
// ---------------------------------------------------------------------------
/// An APP1 segment holding EXIF data.
pub open spec fn is_exif_part(j: Seq<u8>, t: (u8, int, int, int)) -> bool {
    t.0 == 0xe1 && range_starts_with(j, t.2, t.3, exif_prefix())
}

/// After the first `n` parts: the end of the first EXIF segment, if any,
/// else the end of the last APP0 segment (2 when there is none).
pub open spec fn insertion_scan(j: Seq<u8>, parts: Seq<(u8, int, int, int)>, n: nat) -> (Option<int>, int)
    decreases n,
{
    if n == 0 {
        (None, 2)
    } else {
        let s = insertion_scan(j, parts, (n - 1) as nat);
        let t = parts[n - 1];
        if s.0 is Some {
            s
        } else if is_exif_part(j, t) {
            (Some(t.3), s.1)
        } else if t.0 == 0xe0 {
            (None, t.3)
        } else {
            s
        }
    }
}

/// Where sidecars go in a JPEG: right after its EXIF segment, else after
/// its last APP0 segment (and never before the start of the header).
pub open spec fn insertion_point(j: Seq<u8>) -> Result<int, Seq<char>> {
    let w = header(j);
    let s = insertion_scan(j, w.parts, w.parts.len());
    if s.0 is Some {
        Ok(s.0->0)
    } else {
        match w.end {
            Ok(e) => Ok(if s.1 >= e { s.1 } else { e }),
            Err(f) => Err(output_message(f)),
        }
    }
}

proof fn lemma_insertion_found_stays(j: Seq<u8>, parts: Seq<(u8, int, int, int)>, n: nat, m: nat)
    requires
        n <= m,
        insertion_scan(j, parts, n).0 is Some,
    ensures
        insertion_scan(j, parts, m) == insertion_scan(j, parts, n),
    decreases m,
{
    if n < m {
        lemma_insertion_found_stays(j, parts, n, (m - 1) as nat);
    }
}

pub fn jpeg_sidecar_insertion_offset(jpeg: &[u8]) -> (r: Result<usize, String>)
    ensures
        match insertion_point(jpeg@) {
            Ok(p) => r matches Ok(x) && x == p,
            Err(e) => r matches Err(m) && m@ == e,
        },
{
    let (parts, end) = header_parts(jpeg);
    let ghost w = header(jpeg@);
    proof {
        lemma_walk_parts_in_range(jpeg@, 2);
    }
    let prefix = exif_prefix_bytes();
    let mut fallback: usize = 2;
    let mut k: usize = 0;
    while k < parts.len()
        invariant
            k <= parts@.len(),
            w == header(jpeg@),
            parts@.map_values(|t: (u8, usize, usize, usize)| (t.0, t.1 as int, t.2 as int, t.3 as int)) == w.parts,
            forall|x: int| 0 <= x < w.parts.len() ==> {
                let t = #[trigger] w.parts[x];
                2 <= t.1 < t.2 <= t.3 <= jpeg@.len()
            },
            prefix@ == exif_prefix(),
            insertion_scan(jpeg@, w.parts, k as nat) == (None::<int>, fallback as int),
        decreases parts@.len() - k,
    {
        let (m, start, ps, pe) = parts[k];
        let ghost t = w.parts[k as int];
        assert(t == (m, start as int, ps as int, pe as int));
        if m == 0xe1 && range_has_prefix(jpeg, ps, pe, &prefix) {
            proof {
                lemma_insertion_found_stays(jpeg@, w.parts, (k + 1) as nat, w.parts.len());
            }
            return Ok(pe);
        }
        if m == 0xe0 {
            fallback = pe;
        }
        k = k + 1;
    }
    match end {
        Ok(e) => Ok(if fallback >= e { fallback } else { e }),
        Err(f) => Err(output_error(f)),
    }
}

/// The bytes of a segment: marker, big-endian length (payload + 2), payload.
pub open spec fn segment_bytes(marker: u8, payload: Seq<u8>) -> Seq<u8> {
    let len = payload.len() + 2;
    seq![0xffu8, marker, (len / 256) as u8, (len % 256) as u8] + payload
}

/// Appends a segment; its payload may hold at most 65533 bytes.
pub fn append_jpeg_segment(output: &mut Vec<u8>, marker: u8, payload: &[u8]) -> (r: Result<(), String>)
    ensures
        payload@.len() + 2 > 65535 ==> (r matches Err(e) && e@ == "JPG 附加元数据段过大"@) && final(output)@ == old(output)@,
        payload@.len() + 2 <= 65535 ==> r is Ok && final(output)@ == old(output)@ + segment_bytes(marker, payload@),
{
    if payload.len() > 65533 {
        return Err("JPG 附加元数据段过大".to_owned());
    }
    let len: usize = payload.len() + 2;
    output.push(0xff);
    output.push(marker);
    output.push((len / 256) as u8);
    output.push((len % 256) as u8);
    let ghost head = output@;
    append_range(output, payload, 0, payload.len());
    assert(payload@.subrange(0, payload@.len() as int) =~= payload@);
    assert(output@ =~= old(output)@ + segment_bytes(marker, payload@));
    Ok(())
}

/// The segments encoding the first `n` XMP packets (with their prefix),
/// then those encoding the first `m` IPTC segments, or the first too large.
pub open spec fn encoded_xmp(xmp: Seq<Seq<u8>>, n: nat) -> Result<Seq<u8>, Seq<char>>
    decreases n,
{
    if n == 0 {
        Ok(seq![])
    } else {
        match encoded_xmp(xmp, (n - 1) as nat) {
            Err(e) => Err(e),
            Ok(b) => {
                let payload = xmp_prefix() + xmp[n - 1];
                if payload.len() + 2 > 65535 {
                    Err("JPG 附加元数据段过大"@)
                } else {
                    Ok(b + segment_bytes(0xe1, payload))
                }
            },
        }
    }
}

pub open spec fn encoded_iptc(base: Seq<u8>, iptc: Seq<Seq<u8>>, n: nat) -> Result<Seq<u8>, Seq<char>>
    decreases n,
{
    if n == 0 {
        Ok(base)
    } else {
        match encoded_iptc(base, iptc, (n - 1) as nat) {
            Err(e) => Err(e),
            Ok(b) => if iptc[n - 1].len() + 2 > 65535 {
                Err("JPG 附加元数据段过大"@)
            } else {
                Ok(b + segment_bytes(0xed, iptc[n - 1]))
            },
        }
    }
}

/// The sidecar segments of `s`, XMP packets first.
pub open spec fn encoded_sidecars(xmp: Seq<Seq<u8>>, iptc: Seq<Seq<u8>>) -> Result<Seq<u8>, Seq<char>> {
    match encoded_xmp(xmp, xmp.len()) {
        Err(e) => Err(e),
        Ok(b) => encoded_iptc(b, iptc, iptc.len()),
    }
}

proof fn lemma_encoded_xmp_error_stays(xmp: Seq<Seq<u8>>, n: nat, m: nat)
    requires
        n <= m,
        encoded_xmp(xmp, n) is Err,
    ensures
        encoded_xmp(xmp, m) == encoded_xmp(xmp, n),
    decreases m,
{
    if n < m {
        lemma_encoded_xmp_error_stays(xmp, n, (m - 1) as nat);
    }
}

proof fn lemma_encoded_iptc_error_stays(base: Seq<u8>, iptc: Seq<Seq<u8>>, n: nat, m: nat)
    requires
        n <= m,
        encoded_iptc(base, iptc, n) is Err,
    ensures
        encoded_iptc(base, iptc, m) == encoded_iptc(base, iptc, n),
    decreases m,
{
    if n < m {
        lemma_encoded_iptc_error_stays(base, iptc, n, (m - 1) as nat);
    }
}

/// A JPEG with sidecars inserted, or why they cannot be.
pub open spec fn with_sidecars(j: Seq<u8>, xmp: Seq<Seq<u8>>, iptc: Seq<Seq<u8>>) -> Result<Seq<u8>, Seq<char>> {
    if !starts_jpeg(j) {
        Err("输出文件不是有效的 JPG"@)
    } else {
        match insertion_point(j) {
            Err(e) => Err(e),
            Ok(p) => match encoded_sidecars(xmp, iptc) {
                Err(e) => Err(e),
                Ok(b) => Ok(j.subrange(0, p) + b + j.subrange(p, j.len() as int)),
            },
        }
    }
}

/// Inserts the sidecars into a JPEG header (after its EXIF segment, else
/// after its APP0 segments); on failure the JPEG is unchanged.
pub fn insert_jpeg_sidecars(jpeg: &mut Vec<u8>, sidecars: &JpegSidecars) -> (r: Result<(), String>)
    ensures
        match with_sidecars(old(jpeg)@, packets_view(sidecars.xmp_packets@), packets_view(sidecars.iptc_segments@)) {
            Ok(b) => r is Ok && final(jpeg)@ == b,
            Err(e) => (r matches Err(m) && m@ == e) && final(jpeg)@ == old(jpeg)@,
        },
{
    let ghost j0 = jpeg@;
    if jpeg.len() < 2 || jpeg[0] != 0xff || jpeg[1] != 0xd8 {
        return Err("输出文件不是有效的 JPG".to_owned());
    }
    let offset = jpeg_sidecar_insertion_offset(jpeg.as_slice())?;
    proof {
        lemma_walk_parts_in_range(j0, 2);
        let w = header(j0);
        assert(offset <= j0.len()) by {
            lemma_insertion_bound(j0);
        }
    }
    let ghost xv = packets_view(sidecars.xmp_packets@);
    let ghost iv = packets_view(sidecars.iptc_segments@);
    let prefix = xmp_prefix_bytes();
    let mut encoded: Vec<u8> = Vec::new();
    let mut i: usize = 0;
    while i < sidecars.xmp_packets.len()
        invariant
            i <= sidecars.xmp_packets@.len(),
            xv == packets_view(sidecars.xmp_packets@),
            prefix@ == xmp_prefix(),
            encoded_xmp(xv, i as nat) == Ok::<Seq<u8>, Seq<char>>(encoded@),
            starts_jpeg(j0),
            j0 == old(jpeg)@,
            insertion_point(j0) == Ok::<int, Seq<char>>(offset as int),
        decreases sidecars.xmp_packets@.len() - i,
    {
        let packet = &sidecars.xmp_packets[i];
        assert(xv[i as int] == packet@);
        let mut payload = copy_range(prefix.as_slice(), 0, prefix.len());
        append_range(&mut payload, packet.as_slice(), 0, packet.len());
        assert(prefix@.subrange(0, prefix@.len() as int) =~= prefix@);
        assert(packet@.subrange(0, packet@.len() as int) =~= packet@);
        if let Err(e) = append_jpeg_segment(&mut encoded, 0xe1, payload.as_slice()) {
            proof {
                lemma_encoded_xmp_error_stays(xv, (i + 1) as nat, xv.len());
            }
            return Err(e);
        }
        i = i + 1;
    }
    let ghost base = encoded@;
    let mut k: usize = 0;
    while k < sidecars.iptc_segments.len()
        invariant
            k <= sidecars.iptc_segments@.len(),
            iv == packets_view(sidecars.iptc_segments@),
            encoded_iptc(base, iv, k as nat) == Ok::<Seq<u8>, Seq<char>>(encoded@),
            encoded_xmp(xv, xv.len()) == Ok::<Seq<u8>, Seq<char>>(base),
            xv == packets_view(sidecars.xmp_packets@),
            starts_jpeg(j0),
            j0 == old(jpeg)@,
            insertion_point(j0) == Ok::<int, Seq<char>>(offset as int),
        decreases sidecars.iptc_segments@.len() - k,
    {
        let payload = &sidecars.iptc_segments[k];
        assert(iv[k as int] == payload@);
        if let Err(e) = append_jpeg_segment(&mut encoded, 0xed, payload.as_slice()) {
            proof {
                lemma_encoded_iptc_error_stays(base, iv, (k + 1) as nat, iv.len());
            }
            return Err(e);
        }
        k = k + 1;
    }
    let mut out = copy_range(jpeg.as_slice(), 0, offset);
    let n = encoded.len();
    append_range(&mut out, encoded.as_slice(), 0, n);
    let total = jpeg.len();
    append_range(&mut out, jpeg.as_slice(), offset, total);
    assert(encoded@.subrange(0, n as int) =~= encoded@);
    *jpeg = out;
    Ok(())
}

proof fn lemma_insertion_bound(j: Seq<u8>)
    requires
        starts_jpeg(j),
    ensures
        insertion_point(j) matches Ok(p) ==> 2 <= p <= j.len(),
{
    lemma_walk_parts_in_range(j, 2);
    let w = header(j);
    lemma_insertion_scan_bounds(j, w.parts, w.parts.len());
}

proof fn lemma_insertion_scan_bounds(j: Seq<u8>, parts: Seq<(u8, int, int, int)>, n: nat)
    requires
        n <= parts.len(),
        forall|x: int| 0 <= x < parts.len() ==> {
            let t = #[trigger] parts[x];
            2 <= t.1 < t.2 <= t.3 <= j.len()
        },
    ensures
        2 <= insertion_scan(j, parts, n).1 <= j.len() || (insertion_scan(j, parts, n).1 == 2 && j.len() < 2),
        insertion_scan(j, parts, n).0 matches Some(e) ==> 2 <= e <= j.len(),
    decreases n,
{
    if n > 0 {
        lemma_insertion_scan_bounds(j, parts, (n - 1) as nat);
        let t = parts[n - 1];
    }
}

} // verus!
