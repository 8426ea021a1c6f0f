//! Which files take part in pairing, and the keys that pair them.
//!
//! A photo group is identified by its path without extension. Keys are
//! compared case-insensitively unless the user asks for strict matching.

use vstd::prelude::*;
use crate::paths::{
    extension_of as path_extension, extension_text, strip_extension, without_extension,
};
use crate::text::{
    ascii_lower_text, chars_eq_str, chars_of, forward_slash_string, forward_slashes, lowercase,
    unicode_lowercase,
};

verus! {

/// Lower-case extensions of kept reference pictures.
pub open spec fn is_reference_ext(e: Seq<char>) -> bool {
    e == "jpg"@ || e == "jpeg"@
}

/// Lower-case extensions of the supported RAW families.
pub open spec fn is_raw_ext(e: Seq<char>) -> bool {
    ||| e == "nef"@
    ||| e == "nrw"@
    ||| e == "cr2"@
    ||| e == "cr3"@
    ||| e == "arw"@
    ||| e == "sr2"@
    ||| e == "srf"@
    ||| e == "raf"@
    ||| e == "dng"@
    ||| e == "rw2"@
    ||| e == "orf"@
    ||| e == "pef"@
}

/// Lower-case extensions of metadata sidecars.
pub open spec fn is_sidecar_ext(e: Seq<char>) -> bool {
    e == "xmp"@
}

/// The lower-case extension of a path, as `extension_of` computes it.
pub open spec fn ext_key(path: Seq<char>) -> Seq<char> {
    ascii_lower_text(extension_text(path))
}

pub open spec fn is_reference_path(path: Seq<char>) -> bool {
    is_reference_ext(ext_key(path))
}

pub open spec fn is_raw_path(path: Seq<char>) -> bool {
    is_raw_ext(ext_key(path))
}

pub open spec fn is_sidecar_path(path: Seq<char>) -> bool {
    is_sidecar_ext(ext_key(path))
}

/// Path text with forward slashes, lower-cased unless matching is case sensitive.
pub open spec fn path_key(path: Seq<char>, case_sensitive: bool) -> Seq<char> {
    if case_sensitive {
        forward_slashes(path)
    } else {
        unicode_lowercase(forward_slashes(path))
    }
}

/// The pairing key of a photo file: its path without extension.
pub open spec fn group_key(path: Seq<char>, case_sensitive: bool) -> Seq<char> {
    path_key(without_extension(path), case_sensitive)
}

/// The keys a sidecar may pair with: `a.xmp` names `a`, and `a.NEF.xmp`
/// names both `a.NEF` and `a`.
pub open spec fn sidecar_keys(path: Seq<char>, case_sensitive: bool) -> Seq<Seq<char>> {
    let inner = without_extension(path);
    if is_raw_path(inner) {
        seq![path_key(inner, case_sensitive), path_key(without_extension(inner), case_sensitive)]
    } else {
        seq![path_key(inner, case_sensitive)]
    }
}

/// The lower-case extension of `path`, or the empty string.
pub fn extension_of(path: &str) -> (r: String)
    ensures
        r@ == ext_key(path@),
{
    path_extension(path)
}

fn is_reference_extension(e: &str) -> (r: bool)
    ensures
        r == is_reference_ext(e@),
{
    let v = chars_of(e);
    chars_eq_str(&v, "jpg") || chars_eq_str(&v, "jpeg")
}

fn is_raw_extension(e: &str) -> (r: bool)
    ensures
        r == is_raw_ext(e@),
{
    let v = chars_of(e);
    chars_eq_str(&v, "nef") || chars_eq_str(&v, "nrw") || chars_eq_str(&v, "cr2")
        || chars_eq_str(&v, "cr3") || chars_eq_str(&v, "arw") || chars_eq_str(&v, "sr2")
        || chars_eq_str(&v, "srf") || chars_eq_str(&v, "raf") || chars_eq_str(&v, "dng")
        || chars_eq_str(&v, "rw2") || chars_eq_str(&v, "orf") || chars_eq_str(&v, "pef")
}

fn is_sidecar_extension(e: &str) -> (r: bool)
    ensures
        r == is_sidecar_ext(e@),
{
    let v = chars_of(e);
    chars_eq_str(&v, "xmp")
}

/// Whether `path` is a kept reference picture (`.jpg` / `.jpeg`).
pub fn is_reference(path: &str) -> (r: bool)
    ensures
        r == is_reference_path(path@),
{
    is_reference_extension(extension_of(path).as_str())
}

/// Whether `path` is a supported RAW file.
pub fn is_raw(path: &str) -> (r: bool)
    ensures
        r == is_raw_path(path@),
{
    is_raw_extension(extension_of(path).as_str())
}

/// Whether `path` is an `.xmp` sidecar.
pub fn is_sidecar(path: &str) -> (r: bool)
    ensures
        r == is_sidecar_path(path@),
{
    is_sidecar_extension(extension_of(path).as_str())
}

/// Path text with forward slashes, lower-cased unless `case_sensitive`.
pub fn normalized_path_key(path: &str, case_sensitive: bool) -> (r: String)
    ensures
        r@ == path_key(path@, case_sensitive),
{
    let value = forward_slash_string(path);
    if case_sensitive {
        value
    } else {
        lowercase(value.as_str())
    }
}

/// The key of the photo group that `path` belongs to.
pub fn photo_group_key(path: &str, case_sensitive: bool) -> (r: String)
    ensures
        r@ == group_key(path@, case_sensitive),
{
    let stem = strip_extension(path);
    normalized_path_key(stem.as_str(), case_sensitive)
}

/// The group keys that a sidecar at `path` may belong to, most specific first.
pub fn sidecar_match_keys(path: &str, case_sensitive: bool) -> (r: Vec<String>)
    ensures
        r@.map_values(|k: String| k@) == sidecar_keys(path@, case_sensitive),
{
    let without_xmp = strip_extension(path);
    let mut keys: Vec<String> = Vec::new();
    keys.push(normalized_path_key(without_xmp.as_str(), case_sensitive));
    if is_raw(without_xmp.as_str()) {
        let bare = strip_extension(without_xmp.as_str());
        keys.push(normalized_path_key(bare.as_str(), case_sensitive));
    }
    assert(keys@.map_values(|k: String| k@) =~= sidecar_keys(path@, case_sensitive));
    keys
}

/// The first sidecar key is always the key of the path without its `.xmp`.
pub proof fn sidecar_keys_start_with_inner_key(path: Seq<char>, case_sensitive: bool)
    ensures
        sidecar_keys(path, case_sensitive).len() >= 1,
        sidecar_keys(path, case_sensitive)[0] == group_key(path, case_sensitive),
        sidecar_keys(path, case_sensitive).len() == 2 <==> is_raw_path(without_extension(path)),
{
}

} // verus!
