use htknow::archive::{
    archive_dir, archive_format_desc, is_archive_file, is_tar_variant, is_unsafe_entry_name, plan_archive, plan_extraction, ArchiveError,
    ArchiveKind, EntryDecision, ExtractLimits, ExtractState, TarCompression,
};

#[test]
fn archive_names() {
    assert!(is_archive_file("A.ZIP"));
    assert!(is_archive_file("x.tgz"));
    assert!(!is_archive_file("x.7z"));
    assert!(is_archive_file("Backup.TAR.GZ"));
    assert!(!is_archive_file("x.rar"));
    assert!(is_tar_variant("x.tar.xz"));
    assert!(!is_tar_variant("x.zip"));
    assert_eq!(archive_format_desc("a.tar.gz"), "TAR.GZ");
    assert_eq!(archive_format_desc("a.TGZ"), "TAR.GZ");
    assert_eq!(archive_format_desc("a.rar"), "未知");
}

#[test]
fn archive_plans() {
    assert!(matches!(plan_archive("a.zip", "/x/a.zip"), Ok(ArchiveKind::Zip)));
    assert!(matches!(plan_archive("a.tar.bz2", "/x/a.tar.bz2"), Ok(ArchiveKind::Tar(TarCompression::Bzip2))));
    match plan_archive("a.7z", "/x/a.7z") {
        Err(ArchiveError::UnsupportedFormat(m)) => assert_eq!(m, "7Z 格式暂不支持"),
        _ => panic!("expected unsupported"),
    }
    match plan_archive("a.rar", "/x/a.rar") {
        Err(ArchiveError::UnsupportedFormat(m)) => assert_eq!(m, "未知"),
        _ => panic!("expected unsupported"),
    }
    match plan_archive("a.tar", "/x/stored") {
        Err(ArchiveError::UnsupportedFormat(m)) => assert_eq!(m, "TAR 变体"),
        _ => panic!("expected unsupported"),
    }
}

#[test]
fn entries_are_checked_in_order() {
    assert!(is_unsafe_entry_name("../etc"));
    assert!(is_unsafe_entry_name("/abs"));
    assert!(is_unsafe_entry_name("\\win"));
    assert!(!is_unsafe_entry_name("dir/file.txt"));
    let limits = ExtractLimits { max_total_size: 10, max_file_count: 2, max_file_size: 6 };
    let mut st = ExtractState::new();
    assert!(matches!(st.accept_entry(&limits, 1, "a".to_string(), false, 5), Ok(EntryDecision::Extract)));
    assert!(matches!(st.accept_entry(&limits, 1, "../b".to_string(), false, 5), Ok(EntryDecision::Skip)));
    assert!(matches!(st.accept_entry(&limits, 1, "d/".to_string(), true, 0), Ok(EntryDecision::Extract)));
    assert!(matches!(
        st.accept_entry(&limits, 1, "c".to_string(), false, 1),
        Err(ArchiveError::FileCountExceeded { max: 2, actual: 2 })
    ));
    assert_eq!(st.entries.len(), 2);
    assert_eq!(st.total_size, 6);
    let mut big = ExtractState::new();
    assert!(matches!(big.accept_entry(&limits, 1, "x".to_string(), false, 7), Err(ArchiveError::SizeLimitExceeded { .. })));
    let mut total = ExtractState::new();
    assert!(total.accept_entry(&limits, 1, "x".to_string(), false, 6).is_ok());
    assert!(matches!(total.accept_entry(&limits, 1, "y".to_string(), false, 6), Err(ArchiveError::SizeLimitExceeded { .. })));
    let d = ExtractLimits::default();
    assert_eq!((d.max_total_size, d.max_file_count, d.max_file_size), (1_073_741_824, 10_000, 104_857_600));
    assert_eq!(archive_dir("/data/archives", 42), "/data/archives/42");
}

#[test]
fn extraction_plan_refuses_non_archives_first() {
    assert!(matches!(plan_extraction("notes.txt", "/d/notes.txt"), Err(ArchiveError::UnsupportedFormat(s)) if s == "未知"));
    assert!(matches!(plan_extraction("x.7z", "/d/x.7z"), Err(ArchiveError::UnsupportedFormat(s)) if s == "7Z"));
    assert!(matches!(plan_extraction("A.ZIP", "/d/A.ZIP"), Ok(ArchiveKind::Zip)));
    assert!(matches!(plan_extraction("b.tar.gz", "/d/b.tar.gz"), Ok(ArchiveKind::Tar(TarCompression::Gzip))));
}
