use htknow::api::system::{elapsed_secs, force_merge_index_stats, rebuild_doc_counts, ForceMergeStats};

#[test]
fn rebuild_progress_numbers() {
    assert_eq!(rebuild_doc_counts(-3, 5), (0, 0));
    assert_eq!(rebuild_doc_counts(10, 12), (10, 10));
    assert_eq!(rebuild_doc_counts(10, -1), (10, 0));
    assert_eq!(elapsed_secs(true, Some(100), None, 160), Some(60));
    assert_eq!(elapsed_secs(false, Some(100), Some(130), 160), Some(30));
    assert_eq!(elapsed_secs(false, Some(100), None, 90), Some(0));
    assert_eq!(elapsed_secs(true, None, None, 90), None);
}

#[test]
fn merge_stats_keep_figures() {
    let stats = ForceMergeStats {
        before_segments: 5,
        after_segments: 1,
        before_docs: 10,
        after_docs: 10,
        before_deleted_docs: 2,
        after_deleted_docs: 0,
        gc_deleted_files: 3,
        gc_failed_files: 0,
        skipped: false,
        duration_ms: 12,
    };
    let s = force_merge_index_stats("full_index", stats);
    assert_eq!(s.index, "full_index");
    assert_eq!((s.before_segments, s.after_segments, s.duration_ms), (5, 1, 12));
}
