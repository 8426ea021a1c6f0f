use framepair::photo_index::index_directory;
use framepair::reference::{FileFacts, ListedFile};

fn listed(path: &str, size: u64, modified: Option<u64>) -> ListedFile {
    ListedFile {
        relative_path: path.to_string(),
        facts: Ok(FileFacts { size_bytes: size, modified_ms: modified }),
    }
}

#[test]
fn groups_files_by_key_and_counts_kinds() {
    let files = vec![
        listed("day/a.NEF", 30, Some(5)),
        listed("notes.txt", 1, None),
        listed("b.NEF", 20, None),
        listed("day/a.xmp", 2, Some(9)),
        listed("day/a.JPG", 10, Some(7)),
        listed("c.jpg", 5, None),
    ];
    let index = index_directory("/photos", &files, 42).expect("index");
    assert_eq!(index.root, "/photos");
    assert_eq!(index.indexed_at_ms, 42);
    let ids: Vec<&str> = index.assets.iter().map(|a| a.id.as_str()).collect();
    assert_eq!(ids, vec!["b", "c", "day/a"]);
    assert_eq!(index.total_assets, 3);
    assert_eq!(index.paired_assets, 1);
    assert_eq!(index.previewable_assets, 2);
    assert_eq!(index.raw_only_assets, 1);

    let a = &index.assets[2];
    assert_eq!(a.name, "a");
    assert_eq!(a.relative_stem, "day/a");
    assert_eq!(a.preview_path.as_deref(), Some("day/a.JPG"));
    assert_eq!(a.jpeg_paths, vec!["day/a.JPG".to_string()]);
    assert_eq!(a.raw_paths, vec!["day/a.NEF".to_string()]);
    assert_eq!(a.xmp_paths, vec!["day/a.xmp".to_string()]);
    assert_eq!(a.extensions, vec!["JPG".to_string(), "NEF".to_string()]);
    assert_eq!(a.size_bytes, 40);
    assert_eq!(a.modified_ms, Some(7));
    let member_paths: Vec<&str> = a.members.iter().map(|m| m.relative_path.as_str()).collect();
    assert_eq!(member_paths, vec!["day/a.JPG", "day/a.NEF", "day/a.xmp"]);
    assert_eq!(a.rating, 0);
    assert!(a.rating_issues.is_empty());

    let b = &index.assets[0];
    assert_eq!(b.preview_path, None);
    assert_eq!(b.extensions, vec!["NEF".to_string()]);
}

#[test]
fn an_xmp_that_fits_several_groups_joins_the_last_and_is_noted() {
    let files = vec![
        listed("x.nef.jpg", 1, None),
        listed("x.jpg", 1, None),
        listed("x.NEF.xmp", 1, None),
    ];
    let index = index_directory("/p", &files, 0).expect("index");
    let ids: Vec<&str> = index.assets.iter().map(|a| a.id.as_str()).collect();
    assert_eq!(ids, vec!["x", "x.nef"]);
    assert_eq!(index.assets[0].xmp_paths, vec!["x.NEF.xmp".to_string()]);
    assert_eq!(
        index.assets[0].rating_issues,
        vec!["XMP x.NEF.xmp 可以匹配多个照片组".to_string()]
    );
    assert!(index.assets[1].xmp_paths.is_empty());
}

#[test]
fn unmatched_xmp_files_are_left_out_and_unreadable_members_fail() {
    let files = vec![listed("lonely.xmp", 1, None), listed("a.jpg", 1, None)];
    let index = index_directory("/p", &files, 0).expect("index");
    assert_eq!(index.total_assets, 1);
    assert!(index.assets[0].xmp_paths.is_empty());

    let broken = vec![
        listed("a.jpg", 1, None),
        ListedFile { relative_path: "a.nef".to_string(), facts: Err("boom".to_string()) },
    ];
    assert_eq!(
        index_directory("/p", &broken, 0).err(),
        Some("读取照片信息失败：boom".to_string())
    );
}

#[test]
fn sizes_saturate_and_the_first_file_names_the_stem() {
    let files = vec![listed("Shot.jpg", u64::MAX, None), listed("shot.NEF", 5, Some(3))];
    let index = index_directory("C:\\photos", &files, 0).expect("index");
    assert_eq!(index.root, "C:/photos");
    assert_eq!(index.assets.len(), 1);
    assert_eq!(index.assets[0].id, "shot");
    assert_eq!(index.assets[0].relative_stem, "Shot");
    assert_eq!(index.assets[0].size_bytes, u64::MAX);
    assert_eq!(index.assets[0].modified_ms, Some(3));
}
