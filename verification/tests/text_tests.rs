use laya::text::{find_char, split_once_char, str_eq, trim_end_matches_char, trim_start_matches};

#[test]
fn finds_the_first_occurrence() {
    assert_eq!(find_char("a/b/c", '/'), Some(1));
    assert_eq!(find_char("abc", '/'), None);
    assert_eq!(find_char("é/x", '/'), Some(1));
}

#[test]
fn splits_around_the_first_occurrence() {
    assert_eq!(split_once_char("bucket/path/key", '/'), Some(("bucket", "path/key")));
    assert_eq!(split_once_char("/bucket", '/'), Some(("", "bucket")));
    assert_eq!(split_once_char("bucket", '/'), None);
}

#[test]
fn trims_repeated_prefixes_and_trailing_characters() {
    assert_eq!(trim_start_matches("abababc", "ab"), "c");
    assert_eq!(trim_start_matches("xyz", ""), "xyz");
    assert_eq!(trim_end_matches_char("/iiif///", '/'), "/iiif");
    assert_eq!(trim_end_matches_char("///", '/'), "");
}

#[test]
fn compares_texts() {
    assert!(str_eq("s3", "s3"));
    assert!(!str_eq("s3", "s4"));
    assert!(!str_eq("s3", "s3x"));
}
