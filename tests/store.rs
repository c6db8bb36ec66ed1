use smol::kinds::{classify, total_size, FileKind, Tally};
use smol::store::{extension_of, is_journal_path, journal_file_name, journal_name, select_documents};

#[test]
fn extension_follows_last_dot_of_file_name() {
    assert_eq!(extension_of("/j/2024-01-01_00:00:00.md"), Some("md".to_string()));
    assert_eq!(extension_of("a/archive.tar.gz"), Some("gz".to_string()));
    assert_eq!(extension_of("a/.md"), None);
    assert_eq!(extension_of("a/README"), None);
    assert_eq!(extension_of("a.d/README"), None);
    assert_eq!(extension_of("a/.."), None);
    assert_eq!(extension_of("a/b."), Some(String::new()));
    assert_eq!(extension_of("x~.~"), Some("~".to_string()));
}

#[test]
fn journal_documents_are_picked_by_extension() {
    assert!(is_journal_path("/j/2024.md"));
    assert!(!is_journal_path("/j/2024.mdx"));
    assert!(!is_journal_path("/j/notes"));
    assert!(!is_journal_path("/j/.md"));
    let picked = select_documents(vec![
        "/j/a.md".to_string(),
        "/j/b.txt".to_string(),
        "/j/noext".to_string(),
        "/j/c.md".to_string(),
    ]);
    assert_eq!(picked, vec!["/j/a.md".to_string(), "/j/c.md".to_string()]);
}

#[test]
fn file_name_is_stamp_with_extension() {
    assert_eq!(journal_file_name("2024-01-02_03:04:05"), "2024-01-02_03:04:05.md");
}

#[test]
fn journal_name_formats_utc_seconds() {
    let n = journal_name(0).unwrap();
    assert_eq!(n.stamp, "1970-01-01_00:00:00");
    assert_eq!(n.file_name, "1970-01-01_00:00:00.md");
    let n = journal_name(1_700_000_000).unwrap();
    assert_eq!(n.stamp, "2023-11-14_22:13:20");
    let n = journal_name(253402300799).unwrap();
    assert_eq!(n.stamp, "9999-12-31_23:59:59");
    assert_eq!(n.stamp.chars().count(), 19);
    assert!(journal_name(i64::MAX).is_none());
}

#[test]
fn kinds_follow_extension_table() {
    assert_eq!(classify("/m/song.mp3"), FileKind::Compressible { lossless_percent: 10, lossy_percent: 50 });
    assert_eq!(classify("/m/pic.jpg"), FileKind::Compressible { lossless_percent: 40, lossy_percent: 70 });
    assert_eq!(classify("/m/doc.pptx"), FileKind::Compressible { lossless_percent: 40, lossy_percent: 70 });
    assert_eq!(classify("/b/x.o"), FileKind::Useless);
    assert_eq!(classify("/b/file.crdownload"), FileKind::Useless);
    assert_eq!(classify("/b/main.rs"), FileKind::Other);
    assert_eq!(classify("/b/Makefile"), FileKind::Other);
    assert_eq!(classify("/b/song.MP3"), FileKind::Other);
}

#[test]
fn tally_counts_and_estimates() {
    let mut t = Tally::new();
    t.record(FileKind::Compressible { lossless_percent: 10, lossy_percent: 50 }, Some(1000));
    t.record(FileKind::Compressible { lossless_percent: 40, lossy_percent: 70 }, None);
    t.record(FileKind::Useless, Some(333));
    t.record(FileKind::Useless, None);
    t.record(FileKind::Other, Some(5));
    assert_eq!(t.compressible_files, 2);
    assert_eq!(t.lossless_bytes, 100);
    assert_eq!(t.lossy_bytes, 500);
    assert_eq!(t.useless_files, 2);
    assert_eq!(t.useless_bytes, 333);
    let mut u = Tally::new();
    u.record(FileKind::Compressible { lossless_percent: 40, lossy_percent: 70 }, Some(u64::MAX));
    assert_eq!(u.lossless_bytes, u64::MAX / 100 * 40 + (u64::MAX % 100) * 40 / 100);
    u.record(FileKind::Compressible { lossless_percent: 100, lossy_percent: 100 }, Some(u64::MAX));
    assert_eq!(u.lossy_bytes, u64::MAX);
}

#[test]
fn total_size_sums_and_saturates() {
    assert_eq!(total_size(&vec![]), 0);
    assert_eq!(total_size(&vec![1, 2, 3]), 6);
    assert_eq!(total_size(&vec![u64::MAX, 1]), u64::MAX);
}
