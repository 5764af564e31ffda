//! System administration API: the shapes of its reports and the integer
//! arithmetic of index-rebuild progress.
use vstd::prelude::*;

use crate::text::owned;

verus! {

/// Which group of settings to list.
#[derive(Debug)]
pub struct SettingsQuery {
    pub group: Option<String>,
}

/// Memory used by the process.
#[derive(Debug)]
pub struct MemoryUsage {
    pub pid: u32,
    pub rss_bytes: u64,
    pub virtual_bytes: u64,
}

/// State of heap profiling.
#[derive(Debug)]
pub struct HeapProfileStatus {
    pub jemalloc_version: Option<String>,
    pub prof_enabled: Option<bool>,
    pub prof_active: Option<bool>,
    pub malloc_conf: Option<String>,
    pub env_malloc_conf: Option<String>,
    pub warnings: Vec<String>,
}

/// What a vector-store compaction changed.
#[derive(Debug)]
pub struct LanceDbCompactStats {
    pub deleted_rows: u64,
    pub deleted_rows_before: u64,
    pub deleted_rows_after: u64,
    pub total_rows_before: u64,
    pub total_rows_after: u64,
    pub size_before_bytes: u64,
    pub size_after_bytes: u64,
}

/// Figures of one full-text index merge, as the index engine reports them.
#[derive(Debug, Clone, Copy)]
pub struct ForceMergeStats {
    pub before_segments: usize,
    pub after_segments: usize,
    pub before_docs: u64,
    pub after_docs: u64,
    pub before_deleted_docs: u64,
    pub after_deleted_docs: u64,
    pub gc_deleted_files: usize,
    pub gc_failed_files: usize,
    pub skipped: bool,
    pub duration_ms: u128,
}

/// Figures of one full-text index merge, with the index's name.
#[derive(Debug)]
pub struct TantivyForceMergeIndexStats {
    pub index: String,
    pub before_segments: usize,
    pub after_segments: usize,
    pub before_docs: u64,
    pub after_docs: u64,
    pub before_deleted_docs: u64,
    pub after_deleted_docs: u64,
    pub gc_deleted_files: usize,
    pub gc_failed_files: usize,
    pub skipped: bool,
    pub duration_ms: u128,
}

/// Figures of merging both full-text indexes.
#[derive(Debug)]
pub struct TantivyForceMergeResponse {
    pub index: TantivyForceMergeIndexStats,
    pub full_index: TantivyForceMergeIndexStats,
    pub total_duration_ms: u128,
}

/// The merge figures of the index named `index`.
pub fn force_merge_index_stats(index: &str, stats: ForceMergeStats) -> (s: TantivyForceMergeIndexStats)
    ensures
        s.index@ == index@,
        s.before_segments == stats.before_segments,
        s.after_segments == stats.after_segments,
        s.before_docs == stats.before_docs,
        s.after_docs == stats.after_docs,
        s.before_deleted_docs == stats.before_deleted_docs,
        s.after_deleted_docs == stats.after_deleted_docs,
        s.gc_deleted_files == stats.gc_deleted_files,
        s.gc_failed_files == stats.gc_failed_files,
        s.skipped == stats.skipped,
        s.duration_ms == stats.duration_ms,
{
    TantivyForceMergeIndexStats {
        index: owned(index),
        before_segments: stats.before_segments,
        after_segments: stats.after_segments,
        before_docs: stats.before_docs,
        after_docs: stats.after_docs,
        before_deleted_docs: stats.before_deleted_docs,
        after_deleted_docs: stats.after_deleted_docs,
        gc_deleted_files: stats.gc_deleted_files,
        gc_failed_files: stats.gc_failed_files,
        skipped: stats.skipped,
        duration_ms: stats.duration_ms,
    }
}

/// Document counts of a rebuild as shown: the total, never negative, and
/// the processed count within 0 and the total.
pub fn rebuild_doc_counts(total_docs: i64, processed_docs: i64) -> (r: (i64, i64))
    ensures
        r.0 == if total_docs > 0 { total_docs } else { 0 },
        r.1 == if processed_docs < 0 { 0 } else if processed_docs > r.0 { r.0 } else { processed_docs },
{
    let total = if total_docs > 0 { total_docs } else { 0 };
    let processed = if processed_docs < 0 {
        0
    } else if processed_docs > total {
        total
    } else {
        processed_docs
    };
    (total, processed)
}

/// Seconds a rebuild has run: none before it started; a running one up to
/// `now`, a finished one up to its end (up to `now` when no end is
/// recorded); never negative.
pub open spec fn elapsed_spec(running: bool, started_at: Option<i64>, finished_at: Option<i64>, now: i64) -> Option<int> {
    match started_at {
        None => None,
        Some(start) => {
            let end = if running {
                now as int
            } else {
                match finished_at {
                    Some(f) => f as int,
                    None => now as int,
                }
            };
            Some(if end - start > 0 { end - start } else { 0 })
        },
    }
}

/// The elapsed seconds of a rebuild whose status is running or not.
pub fn elapsed_secs(running: bool, started_at: Option<i64>, finished_at: Option<i64>, now: i64) -> (r: Option<i64>)
    requires
        started_at matches Some(s) ==> i64::MIN <= now - s <= i64::MAX,
        started_at matches Some(s) ==> (finished_at matches Some(f) ==> i64::MIN <= f - s <= i64::MAX),
    ensures
        match r {
            Some(e) => elapsed_spec(running, started_at, finished_at, now) == Some(e as int),
            None => elapsed_spec(running, started_at, finished_at, now) is None,
        },
{
    match started_at {
        None => None,
        Some(start) => {
            let d = if running {
                now - start
            } else {
                match finished_at {
                    Some(f) => f - start,
                    None => now - start,
                }
            };
            Some(if d > 0 { d } else { 0 })
        },
    }
}

} // verus!
