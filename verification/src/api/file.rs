//! Files: request and response shapes, status statistics, batch-delete input
//! rules and the safety of stored image paths.
use vstd::prelude::*;

use crate::api::error::{is_bad_request, is_forbidden, is_not_found, ApiError, ApiResult};
use crate::api::knowledge_base::{level_of, level_of_opt, meets_requirement, opt_view, PERM_EDITOR};
use crate::text::{lex_lt, ends_with_chars, has_suffix, lowercase, to_lowercase, chars_of, extend_chars, extend_str, push_i64, slice_chars, string_from_chars, trim, trim_range, decimal_int};
use crate::api::search::{join_ids, push_joined_ids};
use crate::text::strs;
use crate::matching::{group_texts, group_values, regex_capture_groups, regex_captures};
use crate::json::{
    find_member, get_member, keys_increasing, lemma_set_member_sorted, member, member_in, members_json, parse_value,
    set_member, set_member_value, text_of, value_array, value_bool, value_i64, value_json, value_node,
    value_object, value_string, value_text, values_json, json_parsed, json_text, json_string_list, parse_string_list,
    JsonNode, JsonView,
};

verus! {

/// One sheet of an Excel file.
#[derive(Debug)]
pub struct ExcelSheetData {
    pub name: String,
    pub headers: Vec<String>,
    pub rows: Vec<Vec<String>>,
    pub truncated: bool,
}

/// The sheets of an Excel file.
#[derive(Debug)]
pub struct ExcelData {
    pub filename: String,
    pub sheets: Vec<ExcelSheetData>,
}

#[derive(Debug)]
pub struct ExcelDataQuery {
    pub sheet_name: Option<String>,
    pub row_num: Option<usize>,
}

/// Request to extract an archive file.
#[derive(Debug)]
pub struct ArchiveExtractReq {
    /// Password of an encrypted archive.
    pub password: Option<String>,
}

/// Query for downloading one entry of an archive.
#[derive(Debug)]
pub struct ArchiveDownloadQuery {
    /// Path of the entry inside the archive.
    pub path: String,
}

/// A stored file.
#[derive(Clone, Debug)]
pub struct File {
    pub id: i64,
    pub user_id: String,
    pub user_name: String,
    pub hash: String,
    pub filename: String,
    pub path: String,
    pub size: i64,
    pub content: Option<String>,
    pub tags: String,
    pub status: i32,
    pub log: String,
    pub slice_type: String,
    pub kb_id: Option<i64>,
    pub is_public: bool,
    pub meta: Option<String>,
    pub created_at: i64,
    pub updated_at: i64,
}

/// Counts of files by processing status.
#[derive(Clone, Debug)]
pub struct FileStatusBreakdown {
    /// All files counted.
    pub total: i64,
    /// status 0, waiting.
    pub pending: i64,
    /// status 2, being processed.
    pub processing: i64,
    /// status 1, done.
    pub completed: i64,
    /// status 3, not parsed.
    pub skipped: i64,
    /// status -1, failed.
    pub failed: i64,
    /// Any other status.
    pub unknown: i64,
    /// Files being processed now (newest first, at most 10).
    pub processing_files: Vec<FileStatusPreview>,
}

#[derive(Clone, Debug)]
pub struct FileStatusPreview {
    pub id: i64,
    pub filename: String,
    pub kb_id: Option<i64>,
    pub kb_name: Option<String>,
    pub updated_at: i64,
}

/// The six counters of a breakdown: total, pending, processing, completed, skipped, failed, unknown.
pub open spec fn counters(b: FileStatusBreakdown) -> (i64, i64, i64, i64, i64, i64, i64) {
    (b.total, b.pending, b.processing, b.completed, b.skipped, b.failed, b.unknown)
}

impl FileStatusBreakdown {
    /// An empty breakdown.
    pub fn new() -> (b: FileStatusBreakdown)
        ensures
            counters(b) == (0i64, 0i64, 0i64, 0i64, 0i64, 0i64, 0i64),
            b.processing_files@.len() == 0,
    {
        FileStatusBreakdown {
            total: 0,
            pending: 0,
            processing: 0,
            completed: 0,
            skipped: 0,
            failed: 0,
            unknown: 0,
            processing_files: Vec::new(),
        }
    }

    /// Adds `count` files of the given status: to the total and to the counter of
    /// that status (0 pending, 1 completed, 2 processing, 3 skipped, -1 failed,
    /// anything else unknown).
    pub fn add(&mut self, status: i32, count: i64)
        requires
            i64::MIN <= old(self).total + count <= i64::MAX,
            i64::MIN <= old(self).pending + count <= i64::MAX,
            i64::MIN <= old(self).processing + count <= i64::MAX,
            i64::MIN <= old(self).completed + count <= i64::MAX,
            i64::MIN <= old(self).skipped + count <= i64::MAX,
            i64::MIN <= old(self).failed + count <= i64::MAX,
            i64::MIN <= old(self).unknown + count <= i64::MAX,
        ensures
            final(self).total == old(self).total + count,
            final(self).pending == old(self).pending + if status == 0 { count as int } else { 0 },
            final(self).completed == old(self).completed + if status == 1 { count as int } else { 0 },
            final(self).processing == old(self).processing + if status == 2 { count as int } else { 0 },
            final(self).skipped == old(self).skipped + if status == 3 { count as int } else { 0 },
            final(self).failed == old(self).failed + if status == -1 { count as int } else { 0 },
            final(self).unknown == old(self).unknown + if status != 0 && status != 1 && status != 2
                && status != 3 && status != -1 {
                count as int
            } else {
                0
            },
            final(self).processing_files == old(self).processing_files,
    {
        self.total = self.total + count;
        if status == 0 {
            self.pending = self.pending + count;
        } else if status == 1 {
            self.completed = self.completed + count;
        } else if status == 2 {
            self.processing = self.processing + count;
        } else if status == 3 {
            self.skipped = self.skipped + count;
        } else if status == -1 {
            self.failed = self.failed + count;
        } else {
            self.unknown = self.unknown + count;
        }
    }
}

/// Request to move a file to another knowledge base (`None`: unassigned).
#[derive(Debug)]
pub struct MoveFileReq {
    pub target_kb_id: Option<i64>,
}

/// Most ids in one batch delete.
pub const MAX_BATCH_DELETE_IDS: usize = 200;

#[derive(Debug)]
pub struct BatchDeleteFilesReq {
    /// Ids to delete (duplicates are dropped).
    pub ids: Vec<i64>,
    /// Reject the whole batch when any file cannot be deleted.
    pub strict: bool,
    /// Also delete files that are being processed.
    pub allow_processing: bool,
}

#[derive(Debug)]
pub struct BatchDeleteSkippedItem {
    pub id: i64,
    pub reason: String,
}

#[derive(Debug)]
pub struct BatchDeleteCleanupFailedItem {
    pub id: i64,
    /// Cleanup stage: file, pdf or search.
    pub stage: String,
    pub error: String,
}

#[derive(Debug)]
pub struct BatchDeleteFilesResp {
    pub requested: i64,
    pub accepted: i64,
    pub deleted: i64,
    pub deleted_ids: Vec<i64>,
    pub skipped: Vec<BatchDeleteSkippedItem>,
    pub cleanup_failed: Vec<BatchDeleteCleanupFailedItem>,
}

/// The default of the boolean flags of a reparse request.
pub fn default_true_flag() -> (b: bool)
    ensures
        b,
{
    true
}

#[derive(Debug)]
pub struct ReparseFailedFilesReq {
    /// Knowledge base; `None` for all.
    pub kb_id: Option<i64>,
    /// With a knowledge base: include its descendants (default true).
    pub include_descendants: bool,
    /// Globally: include files without a knowledge base (default true).
    pub include_unassigned: bool,
    /// Only files without a knowledge base (default false).
    pub unassigned_only: bool,
}

#[derive(Debug)]
pub struct ReparseFailedFilesResp {
    pub file_count: i64,
}

#[derive(Debug)]
pub struct ListQuery {
    pub kb_id: Option<String>,
    pub tag: Option<String>,
}

#[derive(Debug)]
pub struct FileStatsQuery {
    /// Knowledge base to count, with its descendants if asked.
    pub kb_id: Option<String>,
    /// Include descendant knowledge bases (default true).
    pub include_descendants: Option<bool>,
    /// Globally: include files without a knowledge base (default true).
    pub include_unassigned: Option<bool>,
}

/// A slice of a parsed file.
#[derive(Clone, Debug)]
pub struct Slice {
    pub id: i64,
    pub file_id: i64,
    pub content: String,
    pub created_at: i64,
    pub updated_at: i64,
    pub positions: Option<Vec<SlicePosition>>,
}

/// Where a slice lies on a page or in a sheet.
#[derive(Clone, Debug)]
pub struct SlicePosition {
    pub page_idx: i32,
    pub bbox: [i32; 4],
    pub sheet_name: Option<String>,
    pub row_num: Option<i32>,
}

#[derive(Debug)]
pub struct HighlightQuery {
    /// Base64-encoded JSON array of positions.
    pub positions: Option<String>,
    /// Slice whose positions are used when `positions` is absent.
    pub slice_id: Option<i64>,
}

pub const MSG_IDS_REQUIRED: &'static str = "ids is required";

pub const MSG_TOO_MANY_IDS: &'static str = "Too many ids: max 200";

pub const MSG_INVALID_FILE_ID: &'static str = "Invalid file id: ";

/// The ids without repetitions, each at its first position.
pub open spec fn dedup_first(s: Seq<i64>) -> Seq<i64>
    decreases s.len(),
{
    if s.len() == 0 {
        seq![]
    } else {
        let d = dedup_first(s.drop_last());
        if d.contains(s.last()) {
            d
        } else {
            d.push(s.last())
        }
    }
}

/// Index of the first id that is not positive.
pub open spec fn first_non_positive(s: Seq<i64>) -> Option<int> {
    if exists|i: int| 0 <= i < s.len() && s[i] <= 0 {
        Some(choose|i: int| 0 <= i < s.len() && s[i] <= 0 && forall|j: int| 0 <= j < i ==> s[j] > 0)
    } else {
        None
    }
}

/// Checks the ids of a batch delete and drops repeated ids, keeping their
/// first occurrence.
pub fn normalize_batch_delete_ids(ids: Vec<i64>) -> (r: ApiResult<Vec<i64>>)
    ensures
        ids@.len() == 0 ==> (r matches Err(e) && is_bad_request(e, MSG_IDS_REQUIRED@)),
        ids@.len() > MAX_BATCH_DELETE_IDS ==> (r matches Err(e) && is_bad_request(e, MSG_TOO_MANY_IDS@)),
        0 < ids@.len() <= MAX_BATCH_DELETE_IDS ==> match first_non_positive(ids@) {
            Some(i) => r matches Err(e) && is_bad_request(
                e,
                MSG_INVALID_FILE_ID@ + decimal_int(ids@[i] as int),
            ),
            None => r matches Ok(v) && v@ == dedup_first(ids@),
        },
{
    let n = ids.len();
    if n == 0 {
        return Err(ApiError::bad_request(MSG_IDS_REQUIRED));
    }
    if n > MAX_BATCH_DELETE_IDS {
        return Err(ApiError::bad_request(MSG_TOO_MANY_IDS));
    }
    let mut out: Vec<i64> = Vec::new();
    let mut i: usize = 0;
    while i < n
        invariant
            i <= n == ids@.len(),
            n <= MAX_BATCH_DELETE_IDS,
            out@ == dedup_first(ids@.take(i as int)),
            forall|j: int| 0 <= j < i ==> ids@[j] > 0,
        decreases n - i,
    {
        let id = ids[i];
        if id <= 0 {
            let mut msg: Vec<char> = Vec::new();
            extend_str(&mut msg, MSG_INVALID_FILE_ID);
            push_i64(id, &mut msg);
            proof {
                let w = choose|k: int| 0 <= k < ids@.len() && ids@[k] <= 0 && forall|j: int| 0 <= j < k ==> ids@[j] > 0;
                assert(ids@[i as int] <= 0);
                if w < i {
                    assert(ids@[w] > 0);
                } else if w > i {
                    assert(ids@[i as int] > 0);
                }
            }
            return Err(ApiError::BadRequest(string_from_chars(msg.as_slice())));
        }
        proof {
            assert(ids@.take(i + 1).drop_last() =~= ids@.take(i as int));
        }
        if !contains_id(&out, id) {
            out.push(id);
        }
        i = i + 1;
    }
    assert(ids@.take(n as int) =~= ids@);
    assert(!(exists|k: int| 0 <= k < ids@.len() && ids@[k] <= 0));
    Ok(out)
}

/// Whether the id is in the list.
pub fn contains_id(v: &Vec<i64>, id: i64) -> (b: bool)
    ensures
        b == v@.contains(id),
{
    let n = v.len();
    let mut i: usize = 0;
    while i < n
        invariant
            i <= n == v@.len(),
            forall|k: int| 0 <= k < i ==> v@[k] != id,
        decreases n - i,
    {
        if v[i] == id {
            assert(v@[i as int] == id);
            return true;
        }
        i = i + 1;
    }
    false
}

/// `..` as a path component.
pub open spec fn parent_component_at(p: Seq<char>, i: int) -> bool {
    &&& 0 <= i
    &&& i + 2 <= p.len()
    &&& p[i] == '.'
    &&& p[i + 1] == '.'
    &&& (i == 0 || p[i - 1] == '/')
    &&& (i + 2 == p.len() || p[i + 2] == '/')
}

/// A path that stays below the directory it is joined to: relative (not
/// starting with `/`) and without a `..` component. Paths are `/`-separated.
pub open spec fn safe_relative_path(p: Seq<char>) -> bool {
    &&& !(p.len() > 0 && p[0] == '/')
    &&& forall|i: int| !parent_component_at(p, i)
}

/// Whether a relative path cannot leave the directory it is joined to.
pub fn is_safe_relative_path(path: &str) -> (b: bool)
    ensures
        b == safe_relative_path(path@),
{
    let p = chars_of(path);
    is_safe_relative_chars(p.as_slice())
}

fn is_safe_relative_chars(p: &[char]) -> (b: bool)
    ensures
        b == safe_relative_path(p@),
{
    let n = p.len();
    if n > 0 && p[0] == '/' {
        return false;
    }
    let mut i: usize = 0;
    while i < n
        invariant
            i <= n == p@.len(),
            forall|k: int| 0 <= k < i ==> !parent_component_at(p@, k),
        decreases n - i,
    {
        if n - i >= 2 && p[i] == '.' && p[i + 1] == '.' && (i == 0 || p[i - 1] == '/') && (i + 2 == n
            || p[i + 2] == '/') {
            assert(parent_component_at(p@, i as int));
            return false;
        }
        i = i + 1;
    }
    assert forall|k: int| !parent_component_at(p@, k) by {
        if 0 <= k && k < n {
        }
    }
    true
}

/// `base` joined with the relative path `rel`, as `Path::join` forms it.
pub open spec fn join_path(base: Seq<char>, rel: Seq<char>) -> Seq<char> {
    if base.len() == 0 {
        rel
    } else if base.last() == '/' {
        base + rel
    } else {
        base + seq!['/'] + rel
    }
}

/// Where a stored image lives: the trimmed reference joined to the images
/// directory; `None` for a blank or unsafe reference.
pub fn resolve_image_storage_path(images_path: &str, raw: &str) -> (r: Option<String>)
    ensures
        match r {
            Some(p) => trim(raw@).len() > 0 && safe_relative_path(trim(raw@)) && p@ == join_path(
                images_path@,
                trim(raw@),
            ),
            None => trim(raw@).len() == 0 || !safe_relative_path(trim(raw@)),
        },
{
    let cs = chars_of(raw);
    let (a, b) = trim_range(cs.as_slice());
    let t = slice_chars(cs.as_slice(), a, b);
    if t.len() == 0 {
        return None;
    }
    if !is_safe_relative_chars(t.as_slice()) {
        return None;
    }
    let base = chars_of(images_path);
    let mut out: Vec<char> = Vec::new();
    extend_chars(&mut out, base.as_slice());
    if base.len() > 0 && base[base.len() - 1] != '/' {
        out.push('/');
    }
    extend_chars(&mut out, t.as_slice());
    proof {
        if base@.len() == 0 {
            assert(out@ =~= t@);
        } else if base@.last() == '/' {
            assert(out@ =~= base@ + t@);
        } else {
            assert(out@ =~= base@ + seq!['/'] + t@);
        }
    }
    Some(string_from_chars(out.as_slice()))
}

/// Adding the ids in order and skipping repeats keeps exactly one copy of each id.
pub proof fn lemma_dedup_first_props(s: Seq<i64>)
    ensures
        forall|x: i64| dedup_first(s).contains(x) <==> s.contains(x),
        forall|a: int, b: int|
            0 <= a < b < dedup_first(s).len() ==> dedup_first(s)[a] != dedup_first(s)[b],
    decreases s.len(),
{
    if s.len() > 0 {
        let t = s.drop_last();
        let l = s.last();
        lemma_dedup_first_props(t);
        let d = dedup_first(t);
        let r = dedup_first(s);
        assert forall|x: i64| r.contains(x) <==> s.contains(x) by {
            if s.contains(x) {
                let k = choose|k: int| 0 <= k < s.len() && s[k] == x;
                if k < s.len() - 1 {
                    assert(t[k] == x);
                    assert(t.contains(x));
                    assert(d.contains(x));
                    let m = choose|m: int| 0 <= m < d.len() && d[m] == x;
                    if !d.contains(l) {
                        assert(r[m] == x);
                    }
                } else {
                    assert(x == l);
                    if !d.contains(l) {
                        assert(r[d.len() as int] == x);
                    }
                }
            }
            if r.contains(x) {
                let m = choose|m: int| 0 <= m < r.len() && r[m] == x;
                if d.contains(l) {
                    assert(d.contains(x));
                } else if m < d.len() {
                    assert(d[m] == x);
                    assert(d.contains(x));
                } else {
                    assert(x == l);
                    assert(s[s.len() - 1] == x);
                }
                if d.contains(x) {
                    assert(t.contains(x));
                    let k = choose|k: int| 0 <= k < t.len() && t[k] == x;
                    assert(s[k] == x);
                }
            }
        }
        assert forall|a: int, b: int| 0 <= a < b < r.len() implies r[a] != r[b] by {
            if !d.contains(l) && b == d.len() {
                assert(r[a] == d[a]);
                assert(r[b] == l);
                if d[a] == l {
                    assert(d.contains(l));
                }
            }
        }
    }
}

/// A normalized batch holds each requested id exactly once.
pub proof fn lemma_batch_ids_unique(ids: Seq<i64>)
    ensures
        forall|x: i64| dedup_first(ids).contains(x) <==> ids.contains(x),
        forall|a: int, b: int|
            0 <= a < b < dedup_first(ids).len() ==> dedup_first(ids)[a] != dedup_first(ids)[b],
{
    lemma_dedup_first_props(ids);
}


pub const MSG_FILE_REQUIRED: &'static str = "file is required";

pub const MSG_KB_NOT_FOUND: &'static str = "Knowledge base not found";

pub const MSG_UPLOAD_DENIED: &'static str = "Permission denied. Requires editor or admin to upload files.";

/// File status of an uploaded file kept for storage only.
pub const STATUS_STORED: i32 = 3;

/// File status of an uploaded file waiting to be parsed.
pub const STATUS_PENDING: i32 = 0;

/// An upload form switch is on for `true` or `1`.
pub open spec fn flag_on(text: Seq<char>) -> bool {
    text == "true"@ || text == "1"@
}

/// Whether an upload form switch (`immediate_parse`, `sync`) is on.
pub fn upload_flag(text: &str) -> (b: bool)
    ensures
        b == flag_on(text@),
{
    proof {
        reveal_strlit("true");
        reveal_strlit("1");
    }
    crate::text::str_eq(text, "true") || crate::text::str_eq(text, "1")
}

/// The `is_public` form field as stored: 1 for `true` or `1`, else 0.
pub fn upload_is_public(text: &str) -> (v: i32)
    ensures
        v == if flag_on(text@) { 1i32 } else { 0i32 },
{
    if upload_flag(text) {
        1
    } else {
        0
    }
}

/// Whether an upload may proceed, given how many files it carries and, when
/// it names a knowledge base, whether that base exists (`Some(None)` when it
/// does not, `Some(Some(perm))` with the uploader's permission otherwise):
/// a file is required, the base must exist, and uploading into it needs the
/// editor permission.
pub open spec fn upload_check(file_count: nat, kb: Option<Option<Option<Seq<char>>>>) -> Result<(), (int, Seq<char>)> {
    if file_count == 0 {
        Err((0, MSG_FILE_REQUIRED@))
    } else {
        match kb {
            Some(None) => Err((2, MSG_KB_NOT_FOUND@)),
            Some(Some(perm)) => if level_of_opt(perm) >= level_of(PERM_EDITOR@) {
                Ok(())
            } else {
                Err((1, MSG_UPLOAD_DENIED@))
            },
            None => Ok(()),
        }
    }
}

/// Checks an upload request; errors are a bad request, not found and
/// forbidden, in that order of precedence.
pub fn check_upload(file_count: usize, kb: Option<Option<Option<&str>>>) -> (r: ApiResult<()>)
    ensures
        match r {
            Ok(()) => upload_check(file_count as nat, match kb {
                Some(Some(p)) => Some(Some(opt_view(p))),
                Some(None) => Some(None),
                None => None,
            }) is Ok,
            Err(e) => upload_check(file_count as nat, match kb {
                Some(Some(p)) => Some(Some(opt_view(p))),
                Some(None) => Some(None),
                None => None,
            }) matches Err(err) && (if err.0 == 0 {
                is_bad_request(e, err.1)
            } else if err.0 == 1 {
                is_forbidden(e, err.1)
            } else {
                is_not_found(e, err.1)
            }),
        },
{
    if file_count == 0 {
        return Err(ApiError::bad_request(MSG_FILE_REQUIRED));
    }
    match kb {
        Some(None) => Err(ApiError::not_found(MSG_KB_NOT_FOUND)),
        Some(Some(perm)) => if meets_requirement(perm, PERM_EDITOR) {
            Ok(())
        } else {
            Err(ApiError::forbidden(MSG_UPLOAD_DENIED))
        },
        None => Ok(()),
    }
}

/// Status and log of a newly uploaded file: a file in a storage knowledge
/// base is kept unparsed; any other waits for parsing.
pub fn upload_status(kb_type: Option<&str>) -> (r: (i32, &'static str))
    ensures
        (kb_type matches Some(t) && t@ == "storage"@) ==> r.0 == STATUS_STORED && r.1@ == "Storage mode: not parsed"@,
        !(kb_type matches Some(t) && t@ == "storage"@) ==> r.0 == STATUS_PENDING && r.1@ == ""@,
{
    let storage = match kb_type {
        Some(t) => crate::text::str_eq(t, "storage"),
        None => false,
    };
    if storage {
        (STATUS_STORED, "Storage mode: not parsed")
    } else {
        (STATUS_PENDING, "")
    }
}

/// How an upload reuses the parse of an identical earlier file.
#[derive(Debug, Clone, Copy, PartialEq, Eq)]
pub enum ReuseMode {
    /// Try now, before answering.
    Immediate,
    /// Try in the background.
    Background,
    /// Do not try.
    Skip,
}

/// Reuse is tried only when duplicates may be reused: at once for a
/// synchronous upload, in the background unless parsing starts at once.
pub fn reuse_mode(reuse_duplicates: bool, sync: bool, immediate_parse: bool) -> (m: ReuseMode)
    ensures
        m == if !reuse_duplicates {
            ReuseMode::Skip
        } else if sync {
            ReuseMode::Immediate
        } else if !immediate_parse {
            ReuseMode::Background
        } else {
            ReuseMode::Skip
        },
{
    if !reuse_duplicates {
        ReuseMode::Skip
    } else if sync {
        ReuseMode::Immediate
    } else if !immediate_parse {
        ReuseMode::Background
    } else {
        ReuseMode::Skip
    }
}

/// A file is parsed right after upload when asked to (at once or
/// synchronously), unless it is stored only or was just reused.
pub fn parse_after_upload(status: i32, immediate_parse: bool, sync: bool, reused_now: bool) -> (b: bool)
    ensures
        b == (status != STATUS_STORED && (immediate_parse || sync) && !reused_now),
{
    status != STATUS_STORED && (immediate_parse || sync) && !reused_now
}


pub const MSG_FILE_NOT_FOUND: &'static str = "File not found";

pub const MSG_EDITOR_REQUIRED: &'static str = "Permission denied. Requires editor or admin.";

pub const MSG_DENIED: &'static str = "Permission denied.";

pub const MSG_STORAGE_NO_PARSE: &'static str = "Storage knowledge base files do not support parsing.";

pub const MSG_NO_FIELDS: &'static str = "No fields to update";

/// Who may change a file. `file_kb` is `None` for a missing file, else the
/// file's knowledge base; `perm` is the user's permission on that base and
/// `owner` the file's owner. A file in a knowledge base needs the editor
/// permission; a file outside one, its owner or an administrator.
pub open spec fn file_update_allowed(file_kb: Option<Option<i64>>, perm: Option<Seq<char>>, is_admin: bool, owner: Option<Seq<char>>, user_id: Seq<char>) -> Result<(), (int, Seq<char>)> {
    match file_kb {
        None => Err((2, MSG_FILE_NOT_FOUND@)),
        Some(Some(k)) => if level_of_opt(perm) >= level_of(PERM_EDITOR@) {
            Ok(())
        } else {
            Err((1, MSG_EDITOR_REQUIRED@))
        },
        Some(None) => if is_admin || owner == Some(user_id) {
            Ok(())
        } else {
            Err((1, MSG_DENIED@))
        },
    }
}

/// Checks that a user may change a file.
pub fn authorize_file_update(file_kb: Option<Option<i64>>, perm: Option<&str>, is_admin: bool, owner: Option<&str>, user_id: &str) -> (r: ApiResult<()>)
    ensures
        match r {
            Ok(()) => file_update_allowed(file_kb, opt_view(perm), is_admin, opt_view(owner), user_id@) is Ok,
            Err(e) => file_update_allowed(file_kb, opt_view(perm), is_admin, opt_view(owner), user_id@) matches Err(err)
                && (if err.0 == 1 { is_forbidden(e, err.1) } else { is_not_found(e, err.1) }),
        },
{
    match file_kb {
        None => Err(ApiError::not_found(MSG_FILE_NOT_FOUND)),
        Some(Some(_)) => if meets_requirement(perm, PERM_EDITOR) {
            Ok(())
        } else {
            Err(ApiError::forbidden(MSG_EDITOR_REQUIRED))
        },
        Some(None) => {
            let owns = match owner {
                Some(o) => crate::text::str_eq(o, user_id),
                None => false,
            };
            if is_admin || owns {
                Ok(())
            } else {
                Err(ApiError::forbidden(MSG_DENIED))
            }
        },
    }
}

/// What a file update changes.
#[derive(Debug, Clone, Copy, PartialEq, Eq)]
pub struct FileUpdatePlan {
    /// The slicing changes, so parse results are dropped and the file waits
    /// for parsing again.
    pub reset_parse: bool,
    pub set_filename: bool,
    pub set_tags: bool,
    pub set_is_public: bool,
    pub set_meta: bool,
}

/// The knowledge base type is `storage`.
pub open spec fn storage_kb(kb_type: Option<&str>) -> bool {
    match kb_type {
        Some(t) => t@ == "storage"@,
        None => false,
    }
}

/// Plans a file update from which fields the request sets: a new slice
/// type resets parsing, which files of a storage knowledge base refuse; a
/// request that sets nothing is refused.
pub fn plan_file_update(has_slice_type: bool, kb_type: Option<&str>, has_filename: bool, has_tags: bool, has_is_public: bool, has_meta: bool) -> (r: ApiResult<FileUpdatePlan>)
    ensures
        (has_slice_type && storage_kb(kb_type)) ==> (r matches Err(e) && is_bad_request(e, MSG_STORAGE_NO_PARSE@)),
        !(has_slice_type && storage_kb(kb_type)) && !(has_slice_type || has_filename || has_tags || has_is_public || has_meta)
            ==> (r matches Err(e) && is_bad_request(e, MSG_NO_FIELDS@)),
        r matches Ok(p) ==> p == (FileUpdatePlan {
            reset_parse: has_slice_type,
            set_filename: has_filename,
            set_tags: has_tags,
            set_is_public: has_is_public,
            set_meta: has_meta,
        }),
        r is Ok <==> (!(has_slice_type && storage_kb(kb_type))
            && (has_slice_type || has_filename || has_tags || has_is_public || has_meta)),
{
    if has_slice_type {
        let storage = match kb_type {
            Some(t) => crate::text::str_eq(t, "storage"),
            None => false,
        };
        if storage {
            return Err(ApiError::bad_request(MSG_STORAGE_NO_PARSE));
        }
    }
    if !(has_slice_type || has_filename || has_tags || has_is_public || has_meta) {
        return Err(ApiError::bad_request(MSG_NO_FIELDS));
    }
    Ok(FileUpdatePlan {
        reset_parse: has_slice_type,
        set_filename: has_filename,
        set_tags: has_tags,
        set_is_public: has_is_public,
        set_meta: has_meta,
    })
}

/// The first permission listed for a knowledge base.
pub open spec fn perm_lookup(perms: Seq<(i64, Seq<char>)>, kb: i64) -> Option<Seq<char>>
    decreases perms.len(),
{
    if perms.len() == 0 {
        None
    } else if perms[0].0 == kb {
        Some(perms[0].1)
    } else {
        perm_lookup(perms.drop_first(), kb)
    }
}

/// Plain values of permission pairs.
pub open spec fn perms_view(v: Seq<(i64, String)>) -> Seq<(i64, Seq<char>)> {
    v.map_values(|p: (i64, String)| (p.0, p.1@))
}

/// The permission listed for a knowledge base, if any.
pub fn find_perm(perms: &Vec<(i64, String)>, kb: i64) -> (r: Option<&str>)
    ensures
        opt_view(r) == perm_lookup(perms_view(perms@), kb),
{
    let ghost pv = perms_view(perms@);
    let mut i: usize = 0;
    assert(pv.skip(0) =~= pv);
    while i < perms.len()
        invariant
            i <= perms@.len() == pv.len(),
            pv == perms_view(perms@),
            perm_lookup(pv, kb) == perm_lookup(pv.skip(i as int), kb),
        decreases perms.len() - i,
    {
        assert(pv.skip(i as int)[0] == (perms@[i as int].0, perms@[i as int].1@));
        if perms[i].0 == kb {
            return Some(perms[i].1.as_str());
        }
        assert(pv.skip(i as int).drop_first() =~= pv.skip(i + 1));
        i = i + 1;
    }
    None
}

/// Failed files that a global reparse may retry, in their order: files
/// outside any knowledge base only for an administrator, files of a
/// knowledge base where the user is at least an editor.
pub open spec fn reparse_ids(rows: Seq<(i64, Option<i64>)>, perms: Seq<(i64, Seq<char>)>, is_admin: bool) -> Seq<i64>
    decreases rows.len(),
{
    if rows.len() == 0 {
        seq![]
    } else {
        let prev = reparse_ids(rows.drop_last(), perms, is_admin);
        let (id, kb) = rows.last();
        let ok = match kb {
            None => is_admin,
            Some(k) => level_of_opt(perm_lookup(perms, k)) >= level_of(PERM_EDITOR@),
        };
        if ok { prev.push(id) } else { prev }
    }
}

/// Filters failed files `(id, knowledge base)` by the user's permissions
/// (`(knowledge base, permission)` pairs).
pub fn filter_reparse_ids(rows: &Vec<(i64, Option<i64>)>, perms: &Vec<(i64, String)>, is_admin: bool) -> (r: Vec<i64>)
    ensures
        r@ == reparse_ids(rows@, perms_view(perms@), is_admin),
{
    let mut out: Vec<i64> = Vec::new();
    let mut i: usize = 0;
    while i < rows.len()
        invariant
            i <= rows@.len(),
            out@ == reparse_ids(rows@.take(i as int), perms_view(perms@), is_admin),
        decreases rows.len() - i,
    {
        assert(rows@.take(i + 1).drop_last() =~= rows@.take(i as int));
        let (id, kb) = rows[i];
        let ok = match kb {
            None => is_admin,
            Some(k) => meets_requirement(find_perm(perms, k), PERM_EDITOR),
        };
        if ok {
            out.push(id);
        }
        i = i + 1;
    }
    assert(rows@.take(rows@.len() as int) =~= rows@);
    out
}

/// Whether a listed permission lets a user edit: `editor` or `admin`.
pub open spec fn grants_edit(perm: Option<Seq<char>>) -> bool {
    perm == Some("editor"@) || perm == Some("admin"@)
}

proof fn lemma_edit_level(perm: Option<Seq<char>>)
    ensures
        (level_of_opt(perm) >= level_of(PERM_EDITOR@)) == grants_edit(perm),
{
    reveal_strlit("admin");
    reveal_strlit("editor");
    reveal_strlit("viewer");
}

/// The failed files retried by a reparse are exactly those, in their order,
/// that lie outside any knowledge base when the user is an administrator, or
/// in a knowledge base where the user's listed permission is `editor` or
/// `admin` (at least the editor level).
pub proof fn lemma_reparse_ids_filter(rows: Seq<(i64, Option<i64>)>, perms: Seq<(i64, Seq<char>)>, is_admin: bool)
    ensures
        reparse_ids(rows, perms, is_admin) == rows.filter(
            |r: (i64, Option<i64>)|
                match r.1 {
                    None => is_admin,
                    Some(k) => grants_edit(perm_lookup(perms, k)),
                },
        ).map_values(|r: (i64, Option<i64>)| r.0),
    decreases rows.len(),
{
    let pred = |r: (i64, Option<i64>)|
        match r.1 {
            None => is_admin,
            Some(k) => grants_edit(perm_lookup(perms, k)),
        };
    reveal(Seq::filter);
    if rows.len() > 0 {
        lemma_reparse_ids_filter(rows.drop_last(), perms, is_admin);
        if let Some(k) = rows.last().1 {
            lemma_edit_level(perm_lookup(perms, k));
        }
        let f0 = rows.drop_last().filter(pred);
        if pred(rows.last()) {
            assert(f0.push(rows.last()).map_values(|r: (i64, Option<i64>)| r.0) =~= f0.map_values(
                |r: (i64, Option<i64>)| r.0,
            ).push(rows.last().0));
        }
    } else {
        assert(rows.filter(pred).map_values(|r: (i64, Option<i64>)| r.0) =~= Seq::<i64>::empty());
    }
}

/// The editable knowledge bases of a branch are exactly those, in order,
/// where the user's listed permission is `editor` or `admin`.
pub proof fn lemma_editable_kbs_filter(kbs: Seq<i64>, perms: Seq<(i64, Seq<char>)>)
    ensures
        editable_kbs(kbs, perms) == kbs.filter(|k: i64| grants_edit(perm_lookup(perms, k))),
    decreases kbs.len(),
{
    reveal(Seq::filter);
    if kbs.len() > 0 {
        lemma_editable_kbs_filter(kbs.drop_last(), perms);
        lemma_edit_level(perm_lookup(perms, kbs.last()));
    }
}

/// The knowledge bases of a branch (listed in order) in which failed files
/// may be reparsed: those where the user is at least an editor.
pub open spec fn editable_kbs(kbs: Seq<i64>, perms: Seq<(i64, Seq<char>)>) -> Seq<i64>
    decreases kbs.len(),
{
    if kbs.len() == 0 {
        seq![]
    } else {
        let prev = editable_kbs(kbs.drop_last(), perms);
        let k = kbs.last();
        if level_of_opt(perm_lookup(perms, k)) >= level_of(PERM_EDITOR@) {
            prev.push(k)
        } else {
            prev
        }
    }
}

/// Keeps the knowledge bases of a branch where the user, with the given
/// `(knowledge base, permission)` pairs, is at least an editor.
pub fn editable_kb_ids(kbs: &Vec<i64>, perms: &Vec<(i64, String)>) -> (r: Vec<i64>)
    ensures
        r@ == editable_kbs(kbs@, perms_view(perms@)),
{
    let mut out: Vec<i64> = Vec::new();
    let mut i: usize = 0;
    while i < kbs.len()
        invariant
            i <= kbs@.len(),
            out@ == editable_kbs(kbs@.take(i as int), perms_view(perms@)),
        decreases kbs.len() - i,
    {
        assert(kbs@.take(i + 1).drop_last() =~= kbs@.take(i as int));
        let k = kbs[i];
        if meets_requirement(find_perm(perms, k), PERM_EDITOR) {
            out.push(k);
        }
        i = i + 1;
    }
    assert(kbs@.take(kbs@.len() as int) =~= kbs@);
    out
}

/// Where the PDF for highlighting comes from.
#[derive(Debug, Clone, Copy, PartialEq, Eq)]
pub enum PdfSource {
    /// The PDF converted from an office document.
    Converted,
    /// The uploaded file itself.
    Original,
    /// No PDF exists for this kind of file.
    Unsupported,
}

/// The PDF source for a file by its lower-cased name: office documents were
/// converted, PDFs are used as they are.
pub open spec fn pdf_source_of(lower: Seq<char>) -> PdfSource {
    if has_suffix(lower, ".doc"@) || has_suffix(lower, ".docx"@) || has_suffix(lower, ".ppt"@)
        || has_suffix(lower, ".pptx"@) || has_suffix(lower, ".xls"@) || has_suffix(lower, ".xlsx"@) {
        PdfSource::Converted
    } else if has_suffix(lower, ".pdf"@) {
        PdfSource::Original
    } else {
        PdfSource::Unsupported
    }
}

/// The PDF source of a file.
pub fn pdf_source(filename: &str) -> (r: PdfSource)
    ensures
        r == pdf_source_of(lowercase(filename@)),
{
    proof {
        reveal_strlit(".doc");
        reveal_strlit(".docx");
        reveal_strlit(".ppt");
        reveal_strlit(".pptx");
        reveal_strlit(".xls");
        reveal_strlit(".xlsx");
        reveal_strlit(".pdf");
    }
    let lower = to_lowercase(filename);
    let l = chars_of(lower.as_str());
    let ends = |suffix: &str| -> (b: bool)
        ensures
            b == has_suffix(l@, suffix@),
    {
        let sc = chars_of(suffix);
        ends_with_chars(l.as_slice(), sc.as_slice())
    };
    if ends(".doc") || ends(".docx") || ends(".ppt") || ends(".pptx") || ends(".xls") || ends(".xlsx") {
        PdfSource::Converted
    } else if ends(".pdf") {
        PdfSource::Original
    } else {
        PdfSource::Unsupported
    }
}

/// Key of the stored meta object under which parse assets are recorded.
pub const PARSE_ASSETS_META_KEY: &'static str = "_htknow_parse_assets";

/// Key, inside the parse assets, of the custom image record.
pub const CUSTOM_IMAGES_META_KEY: &'static str = "custom_images";

/// Version written with the parse assets.
pub const CUSTOM_IMAGES_META_VERSION: i64 = 1;

/// Key under which stored meta that is not a JSON object is kept.
pub const LEGACY_META_KEY: &'static str = "_legacy_meta";

/// The trimmed, non-blank texts of the string items, in order; other items
/// are skipped.
pub open spec fn nonblank_texts(items: Seq<JsonView>) -> Seq<Seq<char>>
    decreases items.len(),
{
    if items.len() == 0 {
        seq![]
    } else {
        let prev = nonblank_texts(items.drop_last());
        match items.last() {
            JsonView::Str(t) => if trim(t).len() > 0 {
                prev.push(trim(t))
            } else {
                prev
            },
            _ => prev,
        }
    }
}

/// The custom image paths a meta value records: `None` unless its custom
/// image record is marked checked, else the listed paths (none where the
/// list is missing).
pub open spec fn custom_image_paths(j: JsonView) -> Option<Seq<Seq<char>>> {
    match member(j, PARSE_ASSETS_META_KEY@) {
        Some(pa) => match member(pa, CUSTOM_IMAGES_META_KEY@) {
            Some(ci) => if member(ci, "checked"@) == Some(JsonView::Bool(true)) {
                Some(
                    match member(ci, "paths"@) {
                        Some(JsonView::Array(items)) => nonblank_texts(items),
                        _ => seq![],
                    },
                )
            } else {
                None
            },
            None => None,
        },
        None => None,
    }
}

/// The custom image paths recorded in a file's stored meta text.
pub open spec fn meta_custom_image_paths(meta: Option<Seq<char>>) -> Option<Seq<Seq<char>>> {
    match meta {
        Some(m) => if trim(m).len() == 0 {
            None
        } else {
            match json_parsed(trim(m)) {
                Some(j) => custom_image_paths(j),
                None => None,
            }
        },
        None => None,
    }
}

/// Plain values of an optional list of strings.
pub open spec fn opt_strs(o: Option<Vec<String>>) -> Option<Seq<Seq<char>>> {
    match o {
        Some(v) => Some(strs(v@)),
        None => None,
    }
}

/// The custom image paths recorded in a parsed meta value.
pub fn custom_image_paths_in(value: &serde_json::Value) -> (r: Option<Vec<String>>)
    ensures
        opt_strs(r) == custom_image_paths(value_json(*value)),
{
    let pa = match get_member(value, PARSE_ASSETS_META_KEY) {
        Some(p) => p,
        None => return None,
    };
    let ci = match get_member(&pa, CUSTOM_IMAGES_META_KEY) {
        Some(c) => c,
        None => return None,
    };
    let checked = match get_member(&ci, "checked") {
        Some(c) => match value_node(&c) {
            JsonNode::Bool(b) => b,
            _ => false,
        },
        None => false,
    };
    if !checked {
        return None;
    }
    let mut paths: Vec<String> = Vec::new();
    if let Some(p) = get_member(&ci, "paths") {
        if let JsonNode::Array(items) = value_node(&p) {
            let ghost iv = values_json(items@);
            let mut i: usize = 0;
            while i < items.len()
                invariant
                    i <= items@.len(),
                    iv == values_json(items@),
                    strs(paths@) == nonblank_texts(iv.take(i as int)),
                decreases items@.len() - i,
            {
                assert(iv.take(i + 1).drop_last() =~= iv.take(i as int));
                assert(iv.take(i + 1).last() == value_json(items@[i as int]));
                match text_of(&items[i]) {
                    Some(t) => {
                        let tt = crate::text::trimmed(t.as_str());
                        proof {
                            crate::text::lemma_trim_idempotent(t@);
                        }
                        if !crate::text::is_blank(tt.as_str()) {
                            paths.push(tt);
                            assert(strs(paths@) =~= nonblank_texts(iv.take(i as int)).push(trim(t@)));
                        }
                    },
                    None => {},
                }
                i = i + 1;
            }
            assert(iv.take(items@.len() as int) =~= iv);
        }
    }
    Some(paths)
}

/// The custom image paths recorded in a file's stored meta, if its record
/// is marked checked.
pub fn extract_custom_image_paths_from_meta(meta: Option<&str>) -> (r: Option<Vec<String>>)
    ensures
        opt_strs(r) == meta_custom_image_paths(opt_view(meta)),
{
    let m = match meta {
        Some(m) => m,
        None => return None,
    };
    if crate::text::is_blank(m) {
        return None;
    }
    let raw = crate::text::trimmed(m);
    match parse_value(raw.as_str()) {
        Some(value) => custom_image_paths_in(&value),
        None => None,
    }
}

/// The members of a file's stored meta read as an object: those of a JSON
/// object, else the value it holds, or its text, under `_legacy_meta`; none
/// for blank meta.
pub open spec fn meta_members(meta: Option<Seq<char>>) -> Seq<(Seq<char>, JsonView)> {
    match meta {
        Some(m) => if trim(m).len() == 0 {
            seq![]
        } else {
            match json_parsed(trim(m)) {
                Some(JsonView::Object(ms)) => ms,
                Some(v) => seq![(LEGACY_META_KEY@, v)],
                None => seq![(LEGACY_META_KEY@, JsonView::Str(trim(m)))],
            }
        },
        None => seq![],
    }
}

/// The stored meta as the members of an object, keys in increasing order.
pub fn parse_meta_object(meta: Option<&str>) -> (r: Vec<(String, serde_json::Value)>)
    ensures
        members_json(r@) == meta_members(opt_view(meta)),
        keys_increasing(members_json(r@)),
{
    let mut r: Vec<(String, serde_json::Value)> = Vec::new();
    let m = match meta {
        Some(m) => m,
        None => {
            assert(members_json(r@) =~= Seq::<(Seq<char>, JsonView)>::empty());
            return r;
        },
    };
    if crate::text::is_blank(m) {
        assert(members_json(r@) =~= Seq::<(Seq<char>, JsonView)>::empty());
        return r;
    }
    let raw = crate::text::trimmed(m);
    let legacy = match parse_value(raw.as_str()) {
        Some(value) => match value_node(&value) {
            JsonNode::Object(ms) => return ms,
            _ => value,
        },
        None => value_string(raw.as_str()),
    };
    let ghost lj = value_json(legacy);
    r.push((crate::text::owned(LEGACY_META_KEY), legacy));
    assert(members_json(r@) =~= seq![(LEGACY_META_KEY@, lj)]);
    r
}

/// The paths trimmed, blank ones dropped, each kept once where first seen.
pub open spec fn unique_trimmed(paths: Seq<Seq<char>>) -> Seq<Seq<char>>
    decreases paths.len(),
{
    if paths.len() == 0 {
        seq![]
    } else {
        let prev = unique_trimmed(paths.drop_last());
        let t = trim(paths.last());
        if t.len() > 0 && !prev.contains(t) {
            prev.push(t)
        } else {
            prev
        }
    }
}

/// The paths trimmed, blank ones dropped, each kept once where first seen.
pub fn unique_trimmed_paths(paths: &[String]) -> (r: Vec<String>)
    ensures
        strs(r@) == unique_trimmed(strs(paths@)),
{
    let ghost ps = strs(paths@);
    let mut r: Vec<String> = Vec::new();
    let mut i: usize = 0;
    while i < paths.len()
        invariant
            i <= paths@.len(),
            ps == strs(paths@),
            strs(r@) == unique_trimmed(ps.take(i as int)),
        decreases paths@.len() - i,
    {
        assert(ps.take(i + 1).drop_last() =~= ps.take(i as int));
        assert(ps.take(i + 1).last() == paths@[i as int]@);
        let t = crate::text::trimmed(paths[i].as_str());
        proof {
            crate::text::lemma_trim_idempotent(paths@[i as int]@);
        }
        if !crate::text::is_blank(t.as_str()) {
            let mut seen = false;
            let mut k: usize = 0;
            while k < r.len()
                invariant
                    k <= r@.len(),
                    seen == exists|m: int| 0 <= m < k && r@[m]@ == t@,
                decreases r@.len() - k,
            {
                if crate::text::str_eq(r[k].as_str(), t.as_str()) {
                    seen = true;
                }
                k = k + 1;
            }
            proof {
                let prev = strs(r@);
                if seen {
                    let m = choose|m: int| 0 <= m < r@.len() && r@[m]@ == t@;
                    assert(prev[m] == t@);
                } else {
                    assert forall|m: int| 0 <= m < prev.len() implies prev[m] != t@ by {
                        assert(prev[m] == r@[m]@);
                    }
                }
            }
            if !seen {
                let ghost before = r@;
                r.push(t);
                assert(strs(r@) =~= strs(before).push(t@));
            }
        }
        i = i + 1;
    }
    assert(ps.take(paths@.len() as int) =~= ps);
    r
}

/// The custom image record: checked, its paths, their source and when.
pub open spec fn custom_images_view(paths: Seq<Seq<char>>, source: Seq<char>, now: int) -> JsonView {
    JsonView::Object(
        seq![
            ("checked"@, JsonView::Bool(true)),
            ("paths"@, JsonView::Array(paths.map_values(|p: Seq<char>| JsonView::Str(p)))),
            ("source"@, JsonView::Str(source)),
            ("updated_at"@, JsonView::Number(decimal_int(now))),
        ],
    )
}

/// A file's meta with its custom image record replaced: the stored meta as
/// an object, whose parse assets (kept where they are an object, else
/// started afresh) get the version and the record of the given paths,
/// trimmed, non-blank and each once.
pub open spec fn merged_meta(meta: Option<Seq<char>>, paths: Seq<Seq<char>>, source: Seq<char>, now: int) -> JsonView {
    let root = meta_members(meta);
    let assets = match member_in(root, PARSE_ASSETS_META_KEY@) {
        Some(JsonView::Object(ms)) => ms,
        _ => seq![],
    };
    let with_version = set_member(assets, "version"@, JsonView::Number(decimal_int(CUSTOM_IMAGES_META_VERSION as int)));
    let with_record = set_member(with_version, CUSTOM_IMAGES_META_KEY@, custom_images_view(unique_trimmed(paths), source, now));
    JsonView::Object(set_member(root, PARSE_ASSETS_META_KEY@, JsonView::Object(with_record)))
}

/// A JSON array of the given strings, in order.
fn string_array_value(strings: &Vec<String>) -> (r: serde_json::Value)
    ensures
        value_json(r) == JsonView::Array(strs(strings@).map_values(|p: Seq<char>| JsonView::Str(p))),
{
    let mut items: Vec<serde_json::Value> = Vec::new();
    let ghost target = strs(strings@).map_values(|p: Seq<char>| JsonView::Str(p));
    let mut i: usize = 0;
    while i < strings.len()
        invariant
            i <= strings@.len(),
            target == strs(strings@).map_values(|p: Seq<char>| JsonView::Str(p)),
            values_json(items@) =~= target.take(i as int),
        decreases strings@.len() - i,
    {
        let ghost before = items@;
        let v = value_string(strings[i].as_str());
        items.push(v);
        proof {
            assert(values_json(items@) =~= values_json(before).push(value_json(v)));
            assert(target.take(i + 1) =~= target.take(i as int).push(target[i as int]));
        }
        i = i + 1;
    }
    assert(target.take(strings@.len() as int) =~= target);
    value_array(items)
}

fn custom_images_value(paths: &Vec<String>, source: &str, now: i64) -> (r: serde_json::Value)
    ensures
        value_json(r) == custom_images_view(strs(paths@), source@, now as int),
{
    let p = string_array_value(paths);
    let mut members: Vec<(String, serde_json::Value)> = Vec::new();
    let c = value_bool(true);
    let s = value_string(source);
    let u = value_i64(now);
    let ghost (cj, pj, sj, uj) = (value_json(c), value_json(p), value_json(s), value_json(u));
    members.push((crate::text::owned("checked"), c));
    members.push((crate::text::owned("paths"), p));
    members.push((crate::text::owned("source"), s));
    members.push((crate::text::owned("updated_at"), u));
    let ghost expect = seq![("checked"@, cj), ("paths"@, pj), ("source"@, sj), ("updated_at"@, uj)];
    proof {
        assert(members_json(members@) =~= expect);
        reveal_strlit("checked");
        reveal_strlit("paths");
        reveal_strlit("source");
        reveal_strlit("updated_at");
        assert(lex_lt("checked"@, "paths"@));
        assert(lex_lt("checked"@, "source"@));
        assert(lex_lt("checked"@, "updated_at"@));
        assert(lex_lt("paths"@, "source"@));
        assert(lex_lt("paths"@, "updated_at"@));
        assert(lex_lt("source"@, "updated_at"@));
        assert(keys_increasing(expect));
    }
    value_object(members)
}

/// A file's stored meta with its custom image record set to `image_paths`
/// from `source`, stamped with `now` (Unix seconds), as JSON text.
pub fn merge_custom_image_meta(meta: Option<&str>, image_paths: &[String], source: &str, now: i64) -> (r: String)
    ensures
        r@ == json_text(merged_meta(opt_view(meta), strs(image_paths@), source@, now as int)),
{
    let mut root = parse_meta_object(meta);
    let unique = unique_trimmed_paths(image_paths);
    let ghost r0 = members_json(root@);
    let mut assets: Vec<(String, serde_json::Value)> = match find_member(&root, PARSE_ASSETS_META_KEY) {
        Some(k) => match value_node(&root[k].1) {
            JsonNode::Object(ms) => ms,
            _ => Vec::new(),
        },
        None => Vec::new(),
    };
    let ghost a0 = members_json(assets@);
    proof {
        assert(a0 == match member_in(r0, PARSE_ASSETS_META_KEY@) {
            Some(JsonView::Object(ms)) => ms,
            _ => Seq::<(Seq<char>, JsonView)>::empty(),
        }) by {
            if assets@.len() == 0 {
                assert(a0 =~= Seq::<(Seq<char>, JsonView)>::empty());
            }
        }
        assert(keys_increasing(a0));
    }
    let version = value_i64(CUSTOM_IMAGES_META_VERSION);
    set_member_value(&mut assets, "version", version);
    proof {
        lemma_set_member_sorted(a0, "version"@, value_json(version));
    }
    let ghost a1 = members_json(assets@);
    let record = custom_images_value(&unique, source, now);
    set_member_value(&mut assets, CUSTOM_IMAGES_META_KEY, record);
    proof {
        lemma_set_member_sorted(a1, CUSTOM_IMAGES_META_KEY@, value_json(record));
    }
    let ghost a2 = members_json(assets@);
    let pa = value_object(assets);
    set_member_value(&mut root, PARSE_ASSETS_META_KEY, pa);
    proof {
        lemma_set_member_sorted(r0, PARSE_ASSETS_META_KEY@, value_json(pa));
    }
    let whole = value_object(root);
    value_text(&whole)
}

/// How stored text refers to an uploaded image: the file API's path followed
/// by the image name, which runs up to white space, a quote, `)` or `>`.
pub const IMAGE_REF_PATTERN: &'static str = "/api/v1/knowledge/files/([^\\s'\\)>]+)";

/// The image names that the regex crate finds for `IMAGE_REF_PATTERN` in a
/// text: the first group of each match, in order.
pub open spec fn image_reference_matches(content: Seq<char>) -> Seq<Seq<char>> {
    group_texts(regex_capture_groups(IMAGE_REF_PATTERN@, content), 1)
}

/// The image names a text refers to, as matched.
fn image_reference_captures(content: &str) -> (r: Vec<String>)
    ensures
        strs(r@) == image_reference_matches(content@),
{
    let caps = regex_captures(IMAGE_REF_PATTERN, content);
    group_values(&caps, 1)
}

/// The images a text refers to: the referenced names trimmed, blank ones
/// dropped, each once in the order first seen.
pub fn extract_image_paths_from_text(content: &str) -> (r: Vec<String>)
    ensures
        strs(r@) == unique_trimmed(image_reference_matches(content@)),
{
    let found = image_reference_captures(content);
    unique_trimmed_paths(found.as_slice())
}

/// The image names found in each text, the texts taken in order.
pub open spec fn referenced_images_raw(contents: Seq<Seq<char>>) -> Seq<Seq<char>>
    decreases contents.len(),
{
    if contents.len() == 0 {
        seq![]
    } else {
        referenced_images_raw(contents.drop_last()) + image_reference_matches(contents.last())
    }
}

/// Collects the images referred to by the texts of a set of slices.
pub fn collect_image_references(contents: &[String]) -> (r: Vec<String>)
    ensures
        strs(r@) == unique_trimmed(referenced_images_raw(strs(contents@))),
{
    let ghost cs = strs(contents@);
    let mut all: Vec<String> = Vec::new();
    let mut i: usize = 0;
    while i < contents.len()
        invariant
            i <= contents@.len(),
            cs == strs(contents@),
            strs(all@) == referenced_images_raw(cs.take(i as int)),
        decreases contents@.len() - i,
    {
        assert(cs.take(i + 1).drop_last() =~= cs.take(i as int));
        assert(cs.take(i + 1).last() == contents@[i as int]@);
        let found = image_reference_captures(contents[i].as_str());
        let ghost before = strs(all@);
        let mut k: usize = 0;
        while k < found.len()
            invariant
                k <= found@.len(),
                strs(all@) == before + strs(found@).take(k as int),
            decreases found@.len() - k,
        {
            let ghost b2 = all@;
            all.push(found[k].clone());
            assert(strs(all@) =~= strs(b2).push(found@[k as int]@));
            assert(strs(found@).take(k + 1) =~= strs(found@).take(k as int).push(found@[k as int]@));
            k = k + 1;
        }
        assert(strs(found@).take(found@.len() as int) =~= strs(found@));
        i = i + 1;
    }
    assert(cs.take(contents@.len() as int) =~= cs);
    unique_trimmed_paths(all.as_slice())
}

/// Why a file of a batch delete was skipped: not deletable by the caller.
pub const REASON_NOT_FOUND: &'static str = "not_found_or_no_permission";

/// Why a file of a batch delete was skipped: it is being processed.
pub const REASON_PROCESSING: &'static str = "processing";

/// File status while it is being processed.
pub const STATUS_PROCESSING: i32 = 2;

pub const MSG_PRECHECK_FAILED: &'static str = "Batch delete precheck failed for ids: ";

/// Why a requested file is skipped, given the status of the deletable file
/// with its id (`None` when the caller cannot delete it).
pub open spec fn skip_reason(status: Option<i32>, allow_processing: bool) -> Option<Seq<char>> {
    match status {
        None => Some(REASON_NOT_FOUND@),
        Some(st) => if !allow_processing && st == STATUS_PROCESSING {
            Some(REASON_PROCESSING@)
        } else {
            None
        },
    }
}

/// The first `n` requested ids split into those deleted and those skipped
/// with their reasons, both in request order.
pub open spec fn delete_plan(ids: Seq<i64>, statuses: Seq<Option<i32>>, allow_processing: bool, n: int) -> (Seq<i64>, Seq<(i64, Seq<char>)>)
    decreases n,
{
    if n <= 0 {
        (seq![], seq![])
    } else {
        let prev = delete_plan(ids, statuses, allow_processing, n - 1);
        match skip_reason(statuses[n - 1], allow_processing) {
            Some(reason) => (prev.0, prev.1.push((ids[n - 1], reason))),
            None => (prev.0.push(ids[n - 1]), prev.1),
        }
    }
}

/// Plain values of skipped items.
pub open spec fn skipped_view(v: Seq<BatchDeleteSkippedItem>) -> Seq<(i64, Seq<char>)> {
    v.map_values(|x: BatchDeleteSkippedItem| (x.id, x.reason@))
}

/// Decides a batch delete: for each requested id (in order), given the
/// status of the caller's deletable file with that id, whether it is
/// deleted or skipped and why; in strict mode any skip refuses the batch,
/// naming the skipped ids.
pub fn plan_batch_delete(ids: &Vec<i64>, statuses: &Vec<Option<i32>>, allow_processing: bool, strict: bool) -> (r: ApiResult<(Vec<i64>, Vec<BatchDeleteSkippedItem>)>)
    requires
        statuses@.len() == ids@.len(),
    ensures
        ({
            let plan = delete_plan(ids@, statuses@, allow_processing, ids@.len() as int);
            if strict && plan.1.len() > 0 {
                r matches Err(e) && is_bad_request(e, MSG_PRECHECK_FAILED@ + join_ids(plan.1.map_values(|p: (i64, Seq<char>)| p.0), ", "@))
            } else {
                r matches Ok((d, sk)) && d@ == plan.0 && skipped_view(sk@) == plan.1
            }
        }),
{
    let mut delete: Vec<i64> = Vec::new();
    let mut skipped: Vec<BatchDeleteSkippedItem> = Vec::new();
    let mut skipped_ids: Vec<i64> = Vec::new();
    let mut i: usize = 0;
    while i < ids.len()
        invariant
            i <= ids@.len() == statuses@.len(),
            (delete@, skipped_view(skipped@)) == delete_plan(ids@, statuses@, allow_processing, i as int),
            skipped_ids@ == skipped_view(skipped@).map_values(|p: (i64, Seq<char>)| p.0),
        decreases ids@.len() - i,
    {
        let ghost before = skipped@;
        let reason: Option<&str> = match statuses[i] {
            None => Some(REASON_NOT_FOUND),
            Some(st) => if !allow_processing && st == STATUS_PROCESSING {
                Some(REASON_PROCESSING)
            } else {
                None
            },
        };
        match reason {
            Some(why) => {
                skipped.push(BatchDeleteSkippedItem { id: ids[i], reason: crate::text::owned(why) });
                skipped_ids.push(ids[i]);
                assert(skipped_view(skipped@) =~= skipped_view(before).push((ids@[i as int], why@)));
            },
            None => {
                delete.push(ids[i]);
            },
        }
        i = i + 1;
    }
    if strict && skipped.len() > 0 {
        let mut msg: Vec<char> = Vec::new();
        extend_str(&mut msg, MSG_PRECHECK_FAILED);
        push_joined_ids(&mut msg, skipped_ids.as_slice(), skipped_ids.len(), ", ");
        assert(skipped_ids@.take(skipped_ids@.len() as int) =~= skipped_ids@);
        return Err(ApiError::BadRequest(string_from_chars(msg.as_slice())));
    }
    Ok((delete, skipped))
}

/// The tags an upload form's `tags` field sets: `None` (tags unchanged)
/// for an empty field, else the strings of a JSON list of strings, or no
/// tags when the field is not one.
pub fn upload_tags(text: &str) -> (r: Option<Vec<String>>)
    ensures
        match r {
            None => text@.len() == 0,
            Some(v) => text@.len() > 0 && strs(v@) == match json_string_list(text@) {
                Some(l) => l,
                None => Seq::<Seq<char>>::empty(),
            },
        },
{
    if text.unicode_len() == 0 {
        return None;
    }
    match parse_string_list(text) {
        Some(v) => Some(v),
        None => {
            let v: Vec<String> = Vec::new();
            assert(strs(v@) =~= Seq::<Seq<char>>::empty());
            Some(v)
        },
    }
}

/// Whether a file's stored tags, a JSON list of strings, include `tag`;
/// tags that cannot be read include nothing.
pub fn tags_include(tags_json: &str, tag: &str) -> (b: bool)
    ensures
        b == match json_string_list(tags_json@) {
            Some(l) => l.contains(tag@),
            None => false,
        },
{
    match parse_string_list(tags_json) {
        Some(list) => {
            let ghost l = strs(list@);
            let mut i: usize = 0;
            while i < list.len()
                invariant
                    i <= list@.len(),
                    l == strs(list@),
                    json_string_list(tags_json@) == Some(l),
                    forall|k: int| 0 <= k < i ==> l[k] != tag@,
                decreases list@.len() - i,
            {
                if crate::text::str_eq(list[i].as_str(), tag) {
                    assert(l[i as int] == tag@);
                    return true;
                }
                i = i + 1;
            }
            false
        },
        None => false,
    }
}

/// `acc` followed by the entries of `more` that it does not hold yet, in
/// order.
pub open spec fn merge_new(acc: Seq<Seq<char>>, more: Seq<Seq<char>>) -> Seq<Seq<char>>
    decreases more.len(),
{
    if more.len() == 0 {
        acc
    } else {
        let a = merge_new(acc, more.drop_last());
        if a.contains(more.last()) {
            a
        } else {
            a.push(more.last())
        }
    }
}

/// The images a file's slices refer to: the references of each slice, in
/// slice order, each once.
pub open spec fn slice_image_refs(contents: Seq<Seq<char>>) -> Seq<Seq<char>>
    decreases contents.len(),
{
    if contents.len() == 0 {
        seq![]
    } else {
        merge_new(slice_image_refs(contents.drop_last()), unique_trimmed(image_reference_matches(contents.last())))
    }
}

/// The trimmed, non-blank image paths of PDF content rows, in order.
pub open spec fn row_image_paths(rows: Seq<Option<Seq<char>>>) -> Seq<Seq<char>>
    decreases rows.len(),
{
    if rows.len() == 0 {
        seq![]
    } else {
        let prev = row_image_paths(rows.drop_last());
        match rows.last() {
            Some(p) => if trim(p).len() > 0 {
                prev.push(trim(p))
            } else {
                prev
            },
            None => prev,
        }
    }
}

/// The image paths recorded for one file, from the first source that has a
/// record: its PDF content rows where it has any, else a checked custom
/// image record in its meta, else the images its slices refer to.
pub open spec fn file_image_paths_spec(rows: Seq<Option<Seq<char>>>, meta: Option<Seq<char>>, contents: Seq<Seq<char>>) -> Seq<Seq<char>> {
    if rows.len() > 0 {
        row_image_paths(rows)
    } else {
        match meta_custom_image_paths(meta) {
            Some(p) => p,
            None => slice_image_refs(contents),
        }
    }
}

/// Plain values of optional strings.
pub open spec fn opt_strs_seq(v: Seq<Option<String>>) -> Seq<Option<Seq<char>>> {
    v.map_values(|o: Option<String>| match o {
        Some(s) => Some(s@),
        None => None,
    })
}

/// Appends the entries of `more` that `acc` does not hold yet.
fn merge_new_paths(acc: &mut Vec<String>, more: &Vec<String>)
    ensures
        strs(final(acc)@) == merge_new(strs(old(acc)@), strs(more@)),
{
    let ghost a0 = strs(acc@);
    let ghost m = strs(more@);
    let mut i: usize = 0;
    while i < more.len()
        invariant
            i <= more@.len(),
            m == strs(more@),
            a0 == strs(old(acc)@),
            strs(acc@) == merge_new(a0, m.take(i as int)),
        decreases more@.len() - i,
    {
        assert(m.take(i + 1).drop_last() =~= m.take(i as int));
        assert(m.take(i + 1).last() == more@[i as int]@);
        let ghost cur = strs(acc@);
        let mut found = false;
        let mut k: usize = 0;
        while k < acc.len()
            invariant
                k <= acc@.len(),
                i < more@.len(),
                cur == strs(acc@),
                found == exists|j: int| 0 <= j < k && cur[j] == more@[i as int]@,
            decreases acc@.len() - k,
        {
            assert(cur[k as int] == acc@[k as int]@);
            if crate::text::str_eq(acc[k].as_str(), more[i].as_str()) {
                found = true;
            }
            k = k + 1;
        }
        proof {
            if found {
                let j = choose|j: int| 0 <= j < acc@.len() && cur[j] == more@[i as int]@;
                assert(cur.contains(more@[i as int]@));
            } else {
                assert(!cur.contains(more@[i as int]@));
            }
        }
        if !found {
            acc.push(more[i].clone());
            assert(strs(acc@) =~= cur.push(more@[i as int]@));
        }
        i = i + 1;
    }
    assert(m.take(m.len() as int) =~= m);
}

/// The image paths recorded for one file (see `file_image_paths_spec`):
/// `rows` are the image paths of its PDF content rows, `meta` its stored
/// meta and `contents` the texts of its slices.
pub fn file_image_paths(rows: &Vec<Option<String>>, meta: Option<&str>, contents: &Vec<String>) -> (r: Vec<String>)
    ensures
        strs(r@) == file_image_paths_spec(opt_strs_seq(rows@), opt_view(meta), strs(contents@)),
{
    let ghost rv = opt_strs_seq(rows@);
    let mut out: Vec<String> = Vec::new();
    if rows.len() > 0 {
        let mut i: usize = 0;
        while i < rows.len()
            invariant
                i <= rows@.len(),
                rv == opt_strs_seq(rows@),
                strs(out@) == row_image_paths(rv.take(i as int)),
            decreases rows@.len() - i,
        {
            assert(rv.take(i + 1).drop_last() =~= rv.take(i as int));
            if let Some(p) = &rows[i] {
                let t = crate::text::trimmed(p.as_str());
                proof {
                    crate::text::lemma_trim_idempotent(p@);
                }
                if !crate::text::is_blank(t.as_str()) {
                    let ghost before = out@;
                    out.push(t);
                    assert(strs(out@) =~= strs(before).push(trim(p@)));
                }
            }
            i = i + 1;
        }
        assert(rv.take(rv.len() as int) =~= rv);
        return out;
    }
    if let Some(paths) = extract_custom_image_paths_from_meta(meta) {
        return paths;
    }
    let ghost cs = strs(contents@);
    let mut j: usize = 0;
    assert(strs(out@) =~= Seq::<Seq<char>>::empty());
    while j < contents.len()
        invariant
            j <= contents@.len(),
            cs == strs(contents@),
            strs(out@) == slice_image_refs(cs.take(j as int)),
        decreases contents@.len() - j,
    {
        assert(cs.take(j + 1).drop_last() =~= cs.take(j as int));
        assert(cs.take(j + 1).last() == contents@[j as int]@);
        let found = extract_image_paths_from_text(contents[j].as_str());
        merge_new_paths(&mut out, &found);
        j = j + 1;
    }
    assert(cs.take(cs.len() as int) =~= cs);
    out
}

/// The image paths of several files, the files in order, each path trimmed
/// and kept once.
pub fn raw_image_paths(per_file: &Vec<Vec<String>>) -> (r: Vec<String>)
    ensures
        strs(r@) == unique_trimmed(per_file@.map_values(|v: Vec<String>| strs(v@)).flatten()),
{
    let ghost pv = per_file@.map_values(|v: Vec<String>| strs(v@));
    let mut all: Vec<String> = Vec::new();
    let mut i: usize = 0;
    while i < per_file.len()
        invariant
            i <= per_file@.len(),
            pv == per_file@.map_values(|v: Vec<String>| strs(v@)),
            strs(all@) == pv.take(i as int).flatten(),
        decreases per_file@.len() - i,
    {
        let ghost before = strs(all@);
        let mut k: usize = 0;
        while k < per_file[i].len()
            invariant
                i < per_file@.len(),
                k <= per_file@[i as int]@.len(),
                strs(all@) == before + strs(per_file@[i as int]@).take(k as int),
            decreases per_file@[i as int]@.len() - k,
        {
            let ghost b2 = all@;
            all.push(per_file[i][k].clone());
            assert(strs(all@) =~= strs(b2).push(per_file@[i as int]@[k as int]@));
            assert(strs(per_file@[i as int]@).take(k + 1) =~= strs(per_file@[i as int]@).take(k as int).push(per_file@[i as int]@[k as int]@));
            k = k + 1;
        }
        proof {
            assert(strs(per_file@[i as int]@).take(per_file@[i as int]@.len() as int) =~= strs(per_file@[i as int]@));
            assert(pv.take(i + 1) =~= pv.take(i as int).push(pv[i as int]));
            pv.take(i as int).lemma_flatten_push(pv[i as int]);
        }
        i = i + 1;
    }
    assert(pv.take(pv.len() as int) =~= pv);
    unique_trimmed_paths(all.as_slice())
}

/// Changes to a file: each field that is given is set.
pub struct UpdateFileReq {
    pub slice_type: Option<String>,
    pub filename: Option<String>,
    pub tags: Option<Vec<String>>,
    pub is_public: Option<bool>,
    pub meta: Option<serde_json::Value>,
}

impl UpdateFileReq {
    /// What the update sets, given the type of the file's knowledge base
    /// (see `plan_file_update`).
    pub fn plan(&self, kb_type: Option<&str>) -> (r: ApiResult<FileUpdatePlan>)
        ensures
            (self.slice_type is Some && storage_kb(kb_type)) ==> (r matches Err(e) && is_bad_request(e, MSG_STORAGE_NO_PARSE@)),
            !(self.slice_type is Some && storage_kb(kb_type)) && !(self.slice_type is Some || self.filename is Some
                || self.tags is Some || self.is_public is Some || self.meta is Some)
                ==> (r matches Err(e) && is_bad_request(e, MSG_NO_FIELDS@)),
            r matches Ok(p) ==> p == (FileUpdatePlan {
                reset_parse: self.slice_type is Some,
                set_filename: self.filename is Some,
                set_tags: self.tags is Some,
                set_is_public: self.is_public is Some,
                set_meta: self.meta is Some,
            }),
            r is Ok <==> (!(self.slice_type is Some && storage_kb(kb_type)) && (self.slice_type is Some
                || self.filename is Some || self.tags is Some || self.is_public is Some || self.meta is Some)),
    {
        plan_file_update(
            self.slice_type.is_some(),
            kb_type,
            self.filename.is_some(),
            self.tags.is_some(),
            self.is_public.is_some(),
            self.meta.is_some(),
        )
    }
}

/// The stored text of a file's tags: their JSON list.
pub fn tags_json(tags: &Vec<String>) -> (s: String)
    ensures
        s@ == json_text(JsonView::Array(strs(tags@).map_values(|p: Seq<char>| JsonView::Str(p)))),
{
    let v = string_array_value(tags);
    value_text(&v)
}

/// The stored text of a file's meta: its JSON text.
pub fn meta_json(meta: &serde_json::Value) -> (s: String)
    ensures
        s@ == json_text(value_json(*meta)),
{
    value_text(meta)
}

} // verus!
