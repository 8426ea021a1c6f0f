//! Watermark export arithmetic and framing: the size of each output, the
//! names of the output files and the byte envelope of a rendered preview.

use vstd::prelude::*;
use crate::text::{chars_of, concat3, decimal, decimal_text, string_of};

verus! {

/// How the exported image is sized.
#[derive(Debug, Clone, Copy, PartialEq, Eq, Structural)]
pub enum WatermarkSizing {
    Original { allow_upscale: bool },
    LongEdge { pixels: u32, allow_upscale: bool },
}

/// The output image format.
#[derive(Debug, Clone, Copy, PartialEq, Eq, Structural)]
pub enum WatermarkOutputFormat {
    Jpeg,
    Png,
}

pub open spec fn max_side(w: int, h: int) -> int {
    if w >= h { w } else { h }
}

/// `side` scaled from `long` to `target`, rounded half up, and at least 1.
pub open spec fn scaled_side(side: int, target: int, long: int) -> int {
    let q = (side * target + long / 2) / long;
    if q < 1 { 1 } else { q }
}

/// The long edge that the output gets for a requested long edge.
pub open spec fn target_long_edge(pixels: int, allow_upscale: bool, long: int) -> int {
    if !allow_upscale && pixels > long { long } else { pixels }
}

/// Width, height and the long edge to render at (none when the source size is kept).
pub open spec fn planned_dimensions(width: u32, height: u32, sizing: WatermarkSizing) -> Result<(int, int, Option<int>), Seq<char>> {
    if width == 0 || height == 0 {
        Err("来源照片尺寸无效"@)
    } else {
        match sizing {
            WatermarkSizing::Original { .. } => Ok((width as int, height as int, None)),
            WatermarkSizing::LongEdge { pixels, allow_upscale } => {
                if !(64 <= pixels && pixels <= 32768) {
                    Err("输出长边必须在 64 到 32768 像素之间"@)
                } else {
                    let long = max_side(width as int, height as int);
                    let target = target_long_edge(pixels as int, allow_upscale, long);
                    Ok((
                        scaled_side(width as int, target, long),
                        scaled_side(height as int, target, long),
                        if target != long { Some(target) } else { None },
                    ))
                }
            },
        }
    }
}

pub open spec fn dimensions_view(v: (u32, u32, Option<u32>)) -> (int, int, Option<int>) {
    (v.0 as int, v.1 as int, match v.2 { Some(e) => Some(e as int), None => None })
}

proof fn lemma_scaled_side_bounds(side: int, target: int, long: int)
    requires
        0 < side <= long,
        0 < target <= 32768,
    ensures
        1 <= scaled_side(side, target, long) <= target,
{
    assert((side * target + long / 2) / long <= target) by (nonlinear_arith)
        requires
            0 < side <= long,
            0 < target,
    {
        assert(side * target <= long * target);
        assert(side * target + long / 2 < long * target + long);
        assert(side * target + long / 2 < long * (target + 1));
    }
}

/// Rounded `side * target / long`, at least 1.
fn scale_side(side: u32, target: u32, long: u32) -> (r: u32)
    requires
        0 < side <= long,
        0 < target <= 32768,
    ensures
        r == scaled_side(side as int, target as int, long as int),
{
    proof {
        lemma_scaled_side_bounds(side as int, target as int, long as int);
        assert((side as int) * (target as int) <= (long as int) * 32768) by (nonlinear_arith)
            requires
                0 < side <= long,
                0 < target <= 32768,
        ;
    }
    let product: u64 = (side as u64) * (target as u64);
    let q: u64 = (product + (long as u64) / 2) / (long as u64);
    if q < 1 {
        1
    } else {
        q as u32
    }
}

/// The pixel size of an output and, when it differs from the source, the
/// long edge to render at. A long edge is kept between 64 and 32768
/// pixels, and is not enlarged past the source unless upscaling is allowed.
pub fn output_dimensions(pixel_width: u32, pixel_height: u32, sizing: &WatermarkSizing) -> (r: Result<(u32, u32, Option<u32>), String>)
    ensures
        match planned_dimensions(pixel_width, pixel_height, *sizing) {
            Ok(d) => r matches Ok(v) && dimensions_view(v) == d,
            Err(e) => r matches Err(m) && m@ == e,
        },
{
    if pixel_width == 0 || pixel_height == 0 {
        return Err("来源照片尺寸无效".to_owned());
    }
    match sizing {
        WatermarkSizing::Original { .. } => Ok((pixel_width, pixel_height, None)),
        WatermarkSizing::LongEdge { pixels, allow_upscale } => {
            let pixels = *pixels;
            if !(64 <= pixels && pixels <= 32768) {
                return Err("输出长边必须在 64 到 32768 像素之间".to_owned());
            }
            let long: u32 = if pixel_width >= pixel_height { pixel_width } else { pixel_height };
            let target: u32 = if !*allow_upscale && pixels > long { long } else { pixels };
            let w = scale_side(pixel_width, target, long);
            let h = scale_side(pixel_height, target, long);
            let edge = if target != long { Some(target) } else { None };
            Ok((w, h, edge))
        },
    }
}

// ---------------------------------------------------------------------------
// Output file names
// ---------------------------------------------------------------------------
/// Control characters (`char::is_control`: general category Cc).
pub open spec fn is_control_char(c: char) -> bool {
    (c as u32) <= 0x1f || (0x7f <= (c as u32) && (c as u32) <= 0x9f)
}

/// Characters that no file name may hold on the supported systems.
pub open spec fn forbidden_name_char(c: char) -> bool {
    ||| is_control_char(c)
    ||| c == '<'
    ||| c == '>'
    ||| c == ':'
    ||| c == '"'
    ||| c == '/'
    ||| c == '\\'
    ||| c == '|'
    ||| c == '?'
    ||| c == '*'
}

/// Number of UTF-16 code units that encode `s`.
pub open spec fn utf16_len(s: Seq<char>) -> nat
    decreases s.len(),
{
    if s.len() == 0 {
        0
    } else {
        utf16_len(s.drop_last()) + if (s.last() as u32) >= 0x10000 { 2nat } else { 1nat }
    }
}

proof fn lemma_utf16_len_prefix(s: Seq<char>, k: int)
    requires
        0 <= k <= s.len(),
    ensures
        utf16_len(s.subrange(0, k)) <= utf16_len(s),
    decreases s.len(),
{
    if k < s.len() {
        lemma_utf16_len_prefix(s.drop_last(), k);
        assert(s.drop_last().subrange(0, k) =~= s.subrange(0, k));
    } else {
        assert(s.subrange(0, k) =~= s);
    }
}

/// Whether a file-name suffix is accepted, and if not, why.
pub open spec fn suffix_check(s: Seq<char>) -> Result<(), Seq<char>> {
    if exists|i: int| 0 <= i < s.len() && forbidden_name_char(#[trigger] s[i]) {
        Err("文件名后缀包含系统不允许的字符"@)
    } else if (s.len() > 0 && (s.last() == ' ' || s.last() == '.')) || s == "."@ || s == ".."@ {
        Err("文件名后缀不能以空格或句点结尾"@)
    } else if utf16_len(s) > 120 {
        Err("文件名后缀过长"@)
    } else {
        Ok(())
    }
}

/// Checks the suffix that export appends to each file stem.
pub fn validate_suffix(value: &str) -> (r: Result<(), String>)
    ensures
        match suffix_check(value@) {
            Ok(_) => r is Ok,
            Err(e) => r matches Err(m) && m@ == e,
        },
{
    let v = chars_of(value);
    let mut i: usize = 0;
    while i < v.len()
        invariant
            i <= v@.len(),
            v@ == value@,
            forall|k: int| 0 <= k < i ==> !forbidden_name_char(#[trigger] v@[k]),
        decreases v@.len() - i,
    {
        let c = v[i];
        let code = c as u32;
        if code <= 0x1f || (0x7f <= code && code <= 0x9f) || c == '<' || c == '>' || c == ':' || c == '"'
            || c == '/' || c == '\\' || c == '|' || c == '?' || c == '*' {
            assert(forbidden_name_char(value@[i as int]));
            return Err("文件名后缀包含系统不允许的字符".to_owned());
        }
        i = i + 1;
    }
    proof {
        reveal_strlit(".");
        reveal_strlit("..");
    }
    let n = v.len();
    if n > 0 && (v[n - 1] == ' ' || v[n - 1] == '.') {
        return Err("文件名后缀不能以空格或句点结尾".to_owned());
    }
    assert(value@ != "."@ && value@ != ".."@) by {
        if value@ == "."@ || value@ == ".."@ {
            assert(value@.last() == '.');
        }
    }
    let mut units: usize = 0;
    let mut k: usize = 0;
    while k < n
        invariant
            k <= n,
            n == v@.len(),
            v@ == value@,
            units == utf16_len(v@.subrange(0, k as int)),
            units <= 120,
            forall|x: int| 0 <= x < n ==> !forbidden_name_char(#[trigger] v@[x]),
            !(n > 0 && (v@.last() == ' ' || v@.last() == '.')),
            value@ != "."@ && value@ != ".."@,
        decreases n - k,
    {
        assert(v@.subrange(0, k as int + 1).drop_last() =~= v@.subrange(0, k as int));
        if (v[k] as u32) >= 0x10000 {
            units = units + 2;
        } else {
            units = units + 1;
        }
        k = k + 1;
        if units > 120 {
            proof {
                lemma_utf16_len_prefix(v@, k as int);
            }
            return Err("文件名后缀过长".to_owned());
        }
    }
    assert(v@.subrange(0, n as int) =~= v@);
    Ok(())
}

/// The extension of an output format.
pub open spec fn format_extension(format: WatermarkOutputFormat) -> Seq<char> {
    match format {
        WatermarkOutputFormat::Jpeg => "jpg"@,
        WatermarkOutputFormat::Png => "png"@,
    }
}

pub fn output_extension(format: WatermarkOutputFormat) -> (r: &'static str)
    ensures
        r@ == format_extension(format),
{
    match format {
        WatermarkOutputFormat::Jpeg => "jpg",
        WatermarkOutputFormat::Png => "png",
    }
}

/// `{stem}{suffix}.{ext}`, or `{stem}{suffix}_{sequence}.{ext}` when a
/// sequence number is given.
pub open spec fn output_name(stem: Seq<char>, suffix: Seq<char>, sequence: Option<nat>, format: WatermarkOutputFormat) -> Seq<char> {
    match sequence {
        None => stem + suffix + "."@ + format_extension(format),
        Some(n) => stem + suffix + "_"@ + decimal_text(n) + "."@ + format_extension(format),
    }
}

/// The file name of an output.
pub fn output_file_name(stem: &str, suffix: &str, sequence: Option<u64>, format: WatermarkOutputFormat) -> (r: String)
    ensures
        r@ == output_name(stem@, suffix@, match sequence { Some(n) => Some(n as nat), None => None }, format),
{
    let ext = output_extension(format);
    let head = concat3(stem, suffix, "");
    let named = match sequence {
        None => head,
        Some(n) => {
            let number = decimal(n);
            concat3(head.as_str(), "_", number.as_str())
        },
    };
    let r = concat3(named.as_str(), ".", ext);
    proof {
        reveal_strlit("");
        reveal_strlit("_");
        reveal_strlit(".");
        assert(head@ =~= stem@ + suffix@);
    }
    r
}

// ---------------------------------------------------------------------------
// Preview envelope
// ---------------------------------------------------------------------------
/// The four big-endian bytes of `n`.
pub open spec fn be_u32_bytes(n: int) -> Seq<u8> {
    seq![(n / 16777216 % 256) as u8, (n / 65536 % 256) as u8, (n / 256 % 256) as u8, (n % 256) as u8]
}

/// A rendered preview as the interface receives it: the length of the
/// JSON header as four big-endian bytes, the header, then the PNG bytes.
pub open spec fn preview_envelope(json: Seq<u8>, png: Seq<u8>) -> Result<Seq<u8>, Seq<char>> {
    if json.len() > u32::MAX {
        Err("水印预览信息过大"@)
    } else if 4 + json.len() + png.len() > usize::MAX {
        Err("水印预览响应大小溢出"@)
    } else {
        Ok(be_u32_bytes(json.len() as int) + json + png)
    }
}

fn append_all(out: &mut Vec<u8>, data: &[u8])
    requires
        old(out)@.len() + data@.len() <= usize::MAX,
    ensures
        final(out)@ == old(out)@ + data@,
{
    let mut i: usize = 0;
    while i < data.len()
        invariant
            i <= data@.len(),
            out@ == old(out)@ + data@.subrange(0, i as int),
        decreases data@.len() - i,
    {
        out.push(data[i]);
        i = i + 1;
        assert(old(out)@ + data@.subrange(0, i as int) =~= old(out)@ + data@.subrange(0, i - 1) + seq![data@[i - 1]]);
    }
    assert(data@.subrange(0, data@.len() as int) =~= data@);
}

/// Frames the serialized preview header and the PNG bytes into one response.
pub fn frame_preview_envelope(json: &[u8], png: &[u8]) -> (r: Result<Vec<u8>, String>)
    ensures
        match preview_envelope(json@, png@) {
            Ok(b) => r matches Ok(v) && v@ == b,
            Err(e) => r matches Err(m) && m@ == e,
        },
{
    if json.len() > 0xffff_ffff {
        return Err("水印预览信息过大".to_owned());
    }
    let length: u32 = json.len() as u32;
    if json.len() > usize::MAX - 4 || png.len() > usize::MAX - 4 - json.len() {
        return Err("水印预览响应大小溢出".to_owned());
    }
    let mut out: Vec<u8> = Vec::new();
    out.push((length / 16777216 % 256) as u8);
    out.push((length / 65536 % 256) as u8);
    out.push((length / 256 % 256) as u8);
    out.push((length % 256) as u8);
    assert(out@ =~= be_u32_bytes(json@.len() as int));
    append_all(&mut out, json);
    append_all(&mut out, png);
    Ok(out)
}

} // verus!
