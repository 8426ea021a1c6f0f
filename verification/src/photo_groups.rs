//! Photo groups: the JPG, RAW and XMP files of one shot, found under a photo
//! directory and grouped by their pairing key.

use vstd::prelude::*;
use crate::paths::{extension_text, name_parts};
use crate::text::{ascii_upper_range, ascii_upper_text, chars_of, string_of};

verus! {

#[derive(Debug, Clone, Copy, PartialEq, Eq, Structural)]
pub enum PhotoMemberKind {
    Jpeg,
    Raw,
    Xmp,
}

/// One file of a photo group, as indexed.
#[derive(Debug)]
pub struct PhotoMemberSnapshot {
    pub kind: PhotoMemberKind,
    pub relative_path: String,
    pub size_bytes: u64,
    pub modified_ms: Option<u64>,
}

/// The star ratings a photo group carries: the application's own
/// (`frame_pair`), the one in the JPG metadata and the one in the RAW's XMP.
#[derive(Debug, Clone, Copy, PartialEq, Eq, Structural)]
pub struct RatingState {
    pub frame_pair: u8,
    pub jpeg_metadata: Option<i8>,
    pub raw_xmp: Option<i8>,
    pub resolved: u8,
    pub conflict: bool,
}

/// One photo group.
#[derive(Debug)]
pub struct PhotoAsset {
    pub id: String,
    pub name: String,
    pub relative_stem: String,
    pub preview_path: Option<String>,
    pub jpeg_paths: Vec<String>,
    pub raw_paths: Vec<String>,
    pub xmp_paths: Vec<String>,
    pub members: Vec<PhotoMemberSnapshot>,
    pub extensions: Vec<String>,
    pub size_bytes: u64,
    pub modified_ms: Option<u64>,
    pub rating: u8,
    pub rating_state: RatingState,
    pub rating_issues: Vec<String>,
}

/// The photo groups of a directory.
#[derive(Debug)]
pub struct PhotoIndex {
    pub root: String,
    pub indexed_at_ms: u64,
    pub total_assets: usize,
    pub paired_assets: usize,
    pub previewable_assets: usize,
    pub raw_only_assets: usize,
    pub assets: Vec<PhotoAsset>,
}

/// The extension of a path in ASCII upper case, as shown on a group's badge
/// ("" when there is none).
pub fn extension_label(path: &str) -> (r: String)
    ensures
        r@ == ascii_upper_text(extension_text(path@)),
{
    let v = chars_of(path);
    let p = name_parts(&v);
    if p.has_ext {
        let up = ascii_upper_range(&v, p.dot + 1, p.end);
        string_of(up.as_slice())
    } else {
        assert(ascii_upper_text(seq![]) =~= seq![]);
        String::new()
    }
}

} // verus!
