use git_repo_language_trends::error::TrendsError;
use git_repo_language_trends::repoutils::{
    blobs_in_entries, count_lines, extension_for_raw_name, lines_in_content, log_time, walked_time, EntryKind,
    TreeEntry,
};

fn entry(kind: EntryKind, name: &[u8]) -> TreeEntry {
    TreeEntry { kind, name: name.to_vec(), id: git2::Oid::zero() }
}

#[test]
fn extension_is_the_name_from_its_last_dot() {
    assert_eq!(extension_for_raw_name(b"main.rs"), Some(".rs"));
    assert_eq!(extension_for_raw_name(b"archive.tar.gz"), Some(".gz"));
    assert_eq!(extension_for_raw_name(b".gitignore"), Some(".gitignore"));
    assert_eq!(extension_for_raw_name(b"Cargo.lock"), Some(".lock"));
}

#[test]
fn a_name_without_dot_has_no_extension() {
    assert_eq!(extension_for_raw_name(b"Makefile"), None);
    assert_eq!(extension_for_raw_name(b""), None);
}

#[test]
fn a_name_that_ends_in_a_dot_has_the_dot_as_extension() {
    assert_eq!(extension_for_raw_name(b"odd."), Some("."));
    assert_eq!(extension_for_raw_name(b"."), Some("."));
    assert_eq!(extension_for_raw_name(b".."), Some("."));
}

#[test]
fn extension_keeps_its_case() {
    assert_eq!(extension_for_raw_name(b"app.JS"), Some(".JS"));
    assert_ne!(extension_for_raw_name(b"app.JS"), Some(".js"));
}

#[test]
fn an_extension_that_is_not_utf8_is_none() {
    assert_eq!(extension_for_raw_name(b"bad.\xff\xfe"), None);
    assert_eq!(extension_for_raw_name(b"cut.\xc3"), None);
    assert_eq!(extension_for_raw_name(b"long.\xc0\xaf"), None);
    assert_eq!(extension_for_raw_name(b"surrogate.\xed\xa0\x80"), None);
}

#[test]
fn only_the_extension_has_to_be_utf8() {
    assert_eq!(extension_for_raw_name(b"\xff\xfe.rs"), Some(".rs"));
    assert_eq!(extension_for_raw_name("grüße.töml".as_bytes()), Some(".töml"));
}

#[test]
fn lines_are_counted_by_their_terminators() {
    assert_eq!(count_lines(b""), 0);
    assert_eq!(count_lines(b"\n"), 1);
    assert_eq!(count_lines(b"one\ntwo\n"), 2);
    assert_eq!(count_lines(b"\n\n\n"), 3);
}

#[test]
fn a_last_line_without_terminator_is_not_counted() {
    assert_eq!(count_lines(b"one"), 0);
    assert_eq!(count_lines(b"one\ntwo"), 1);
}

#[test]
fn binary_content_counts_its_newline_bytes() {
    assert_eq!(count_lines(&[0u8, 1, 2, 255, 13, 0]), 0);
    assert_eq!(count_lines(&[0u8, 10, 255, 10, 13]), 2);
    assert_eq!(count_lines(b"carriage\r\nreturn\r"), 1);
}

#[test]
fn blobs_are_the_files_with_an_extension() {
    let entries = vec![
        entry(EntryKind::Blob, b"main.rs"),
        entry(EntryKind::Blob, b"Makefile"),
        entry(EntryKind::Tree, b"src.d"),
        entry(EntryKind::Commit, b"module.rs"),
        entry(EntryKind::Blob, b"bad.\xff"),
        entry(EntryKind::Tag, b"tag.rs"),
        entry(EntryKind::Any, b"any.rs"),
        entry(EntryKind::Unknown, b"unknown.rs"),
        entry(EntryKind::Blob, b"README.md"),
        entry(EntryKind::Blob, b"lib.rs"),
    ];
    let exts: Vec<String> = blobs_in_entries(&entries).into_iter().map(|blob| blob.ext).collect();
    assert_eq!(exts, vec![".rs", ".md", ".rs"]);
}

#[test]
fn blobs_keep_their_ids() {
    let id = git2::Oid::from_str("0123456789abcdef0123456789abcdef01234567").unwrap();
    let entries = vec![
        entry(EntryKind::Blob, b"first.c"),
        TreeEntry { kind: EntryKind::Blob, name: b"second.h".to_vec(), id },
    ];
    let blobs = blobs_in_entries(&entries);
    assert_eq!(blobs.len(), 2);
    assert_eq!(blobs[0].id, git2::Oid::zero());
    assert_eq!(blobs[0].ext, ".c");
    assert_eq!(blobs[1].id, id);
    assert_eq!(blobs[1].ext, ".h");
}

#[test]
fn no_entries_no_blobs() {
    assert!(blobs_in_entries(&vec![]).is_empty());
}

#[test]
fn merges_enter_the_log_only_with_all_parents() {
    assert!(log_time(false, 0, 1_611_446_400).is_some());
    assert!(log_time(false, 1, 1_611_446_400).is_some());
    assert!(log_time(false, 2, 1_611_446_400).is_none());
    assert!(log_time(false, 8, 1_611_446_400).is_none());
    assert!(log_time(true, 2, 1_611_446_400).is_some());
    assert!(log_time(true, 8, 1_611_446_400).is_some());
    assert_eq!(log_time(true, 2, 1_611_446_400).unwrap().seconds(), 1_611_446_400);
}

#[test]
fn a_commit_without_a_date_does_not_enter_the_log() {
    assert!(log_time(false, 1, i64::MAX).is_none());
    assert!(log_time(true, 1, i64::MIN).is_none());
    assert!(log_time(true, 1, 8_210_266_876_800).is_none());
    assert!(log_time(true, 1, 8_210_266_876_799).is_some());
    assert!(log_time(true, 1, -8_334_601_228_800).is_some());
    assert!(log_time(true, 1, -8_334_601_228_801).is_none());
    assert!(log_time(false, 1, 253_402_300_800).is_some());
}

#[test]
fn a_commit_that_could_not_be_opened_is_skipped() {
    assert!(walked_time(false, None).is_none());
    assert!(walked_time(true, None).is_none());
}

#[test]
fn a_commit_that_was_opened_enters_as_its_parents_and_time_allow() {
    assert_eq!(walked_time(false, Some((1, 1_611_446_400))).unwrap().seconds(), 1_611_446_400);
    assert_eq!(walked_time(false, Some((0, -5))).unwrap().seconds(), -5);
    assert!(walked_time(false, Some((2, 1_611_446_400))).is_none());
    assert_eq!(walked_time(true, Some((2, 1_611_446_400))).unwrap().seconds(), 1_611_446_400);
    assert!(walked_time(true, Some((1, i64::MAX))).is_none());
}

#[test]
fn the_content_of_a_blob_has_its_lines_counted() {
    assert_eq!(lines_in_content(Some(&b"one\ntwo\nthree"[..])).unwrap(), 2);
    assert_eq!(lines_in_content(Some(&b""[..])).unwrap(), 0);
}

#[test]
fn an_object_that_is_no_blob_has_no_count() {
    assert!(matches!(lines_in_content(None), Err(TrendsError::ContentNotFound(_))));
}
