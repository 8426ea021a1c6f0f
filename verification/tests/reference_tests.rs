use std::collections::HashSet;

use framepair::reference::{
    FileFacts, ListedFile, directory_index, manifest_index, parse_manifest, parse_rating,
    validate_minimum_rating,
};

fn listed(path: &str, size: u64) -> ListedFile {
    ListedFile {
        relative_path: path.to_string(),
        facts: Ok(FileFacts { size_bytes: size, modified_ms: Some(1) }),
    }
}

#[test]
fn parses_relative_utf8_manifest_and_rejects_unsafe_entries() {
    let input = "day/a.JPG\nother/b.jpeg\n# comment\n\n";
    let keys = parse_manifest(input, false).expect("valid manifest");
    assert_eq!(
        keys.into_iter().collect::<HashSet<_>>(),
        HashSet::from(["day/a".to_string(), "other/b".to_string()])
    );

    assert!(parse_manifest("../a.jpg\n", false).is_err());
    assert!(parse_manifest("/absolute/a.jpg\n", false).is_err());
    assert!(parse_manifest("a.jpg\na.jpeg\n", false).is_err());
    assert!(parse_manifest("a.png\n", false).is_err());
}

#[test]
fn builds_a_manifest_reference_index() {
    let index = manifest_index("day/a.JPG\nother/b.jpeg\n", false).expect("manifest index");
    assert!(index.root.is_none());
    assert_eq!(index.source_items, 2);
    assert_eq!(index.duplicate_keys, 0);
    let keys: HashSet<String> = index.entries.iter().map(|entry| entry.key.clone()).collect();
    assert_eq!(keys, HashSet::from(["day/a".to_string(), "other/b".to_string()]));
    let day_a = index.entries.iter().find(|entry| entry.key == "day/a").expect("day/a entry");
    assert_eq!(day_a.matches[0].display_path, "day/a.JPG");
}

#[test]
fn directory_index_files_each_jpg_under_its_key_and_counts_duplicates() {
    let files = vec![
        listed("day/A.JPG", 3),
        listed("day/a.jpeg", 4),
        listed("day/b.jpg", 5),
        listed("day/notes.txt", 6),
    ];
    let index = directory_index("/photos/JPG".to_string(), files, false);
    assert_eq!(index.root.as_deref(), Some("/photos/JPG"));
    assert_eq!(index.source_items, 3);
    assert_eq!(index.entries.len(), 2);
    assert_eq!(index.duplicate_keys, 1);
    let a = index.entries.iter().find(|entry| entry.key == "day/a").expect("entry a");
    assert_eq!(a.matches.len(), 2);
}

#[test]
fn parse_rating_accepts_reject_mark_and_refuses_out_of_range() {
    assert_eq!(parse_rating(" 5 "), Ok(5));
    assert_eq!(parse_rating("-1"), Ok(-1));
    assert_eq!(parse_rating("6").unwrap_err(), "XMP Rating 必须在 -1 到 5 之间");
    assert_eq!(parse_rating("abc").unwrap_err(), "XMP Rating 不是整数");
}

#[test]
fn minimum_rating_must_be_one_to_five() {
    assert!(validate_minimum_rating(0).is_err());
    assert!(validate_minimum_rating(1).is_ok());
    assert!(validate_minimum_rating(5).is_ok());
    assert!(validate_minimum_rating(6).is_err());
}
