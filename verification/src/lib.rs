//! FramePair core: pairing RAW files with kept JPG references, rating rules,
//! organizer plans and JPEG metadata segments, with their contracts.

pub mod text;
pub mod paths;
pub mod formats;
pub mod sorting;
pub mod safety;
pub mod reference;
pub mod pair_scan;
pub mod pair_cleanup;
pub mod rating_rules;
pub mod photo_groups;
pub mod rating_sync;
pub mod operation_plan;
pub mod history;
pub mod organizer;
pub mod jpeg;
pub mod xmp;
pub mod watermark;
pub mod xmp_rewrite;
pub mod photo_index;
pub mod xmp_sanitize;
pub mod quarantine;
pub mod sync_execution;
pub mod group_run;
pub mod content_hash;
pub mod execution;
pub mod scan_plan;
