# FramePair core

FramePair pairs RAW photos with the JPG pictures kept after culling, cleans up
the RAW files whose picture is gone, organises photo groups by star rating and
keeps ratings in sync between the application, XMP sidecars and JPG metadata.

This crate holds much of the application's logic as a Verus library: the
functions in `src/` carry contracts, and Verus proves the code against them.
What the library leaves to `app/` is the file-system work itself and the
parts that rest on image processing or platform services.

## Layout

- `src/` — the verified library:
  - `text`, `paths`, `formats`, `sorting`: text, path and file-kind rules, and
    ordering by text keys;
  - `reference`, `pair_scan`, `safety`, `scan_plan`, `pair_cleanup`,
    `quarantine`: reference indexes, scanning a RAW directory, the authorised
    cleanup plan (one per scan, taken once) and what each removal may do;
  - `photo_groups`, `photo_index`: indexing a photo directory into groups;
  - `rating_rules`, `rating_sync`, `sync_execution`, `operation_plan`,
    `organizer`, `group_run`, `execution`, `history`, `content_hash`: rating
    rules, synchronisation plans, organizer plans, running a photo group all
    or nothing (with undo of the committed members), quarantine and trash
    groups, rating writes at the destination, recovery of recorded groups,
    the history, and SHA-256 content hashes;
  - `xmp`, `xmp_rewrite`, `xmp_sanitize`, `jpeg`, `watermark`: reading and
    writing XMP ratings, cleaning XMP packets, JPEG header segments and the
    arithmetic and framing of watermark exports.
- `tests/` — tests of the library on concrete values.
- `app/` — the file-system side: directory walks, reads and writes, the
  system trash, the cleanup log and the history store, driven by the library.

The XML reader and writer come from `quick_xml` and the hashes from `sha2`;
the calls into them sit behind small trusted wrappers in `xmp`,
`xmp_rewrite`, `xmp_sanitize` and `content_hash`, each documented with what
it is believed to do.
