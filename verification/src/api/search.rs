//! Search: query shapes, result visibility, the id-list syntax of query
//! strings, lexicon input rules and the summaries written to the log.
use vstd::prelude::*;

use crate::api::error::{is_bad_request, ApiError, ApiResult};
use crate::text::{chars_of, decimal_int, decimal_nat, extend_str, parse_i64, parse_int_spec, push_i64, push_usize, slice_chars, split_at_commas, split_commas, str_eq, string_from_chars, trim, trim_range, trimmed};

verus! {

#[derive(Debug)]
pub struct SearchQuery {
    /// Search words.
    pub query: String,
    /// Files to search in (`1,2` in the query string).
    pub file_id: Option<Vec<i64>>,
    /// Knowledge bases to search in (`1,2` in the query string).
    pub kb_id: Option<Vec<i64>>,
    /// Use the multi-step flow.
    pub advanced: bool,
}

#[derive(Debug)]
pub struct FullSearchQuery {
    pub query: String,
    pub file_id: Option<Vec<i64>>,
    pub kb_id: Option<Vec<i64>>,
    /// Exact file name filter.
    pub filename: Option<String>,
}

/// Default number of steps of an advanced search.
pub fn default_max_sub_queries() -> (n: usize)
    ensures
        n == 3,
{
    3
}

/// Default number of candidates per step.
pub fn default_per_query_limit() -> (n: usize)
    ensures
        n == 10,
{
    10
}

/// Default characters of context on each side.
pub fn default_context_chars() -> (n: usize)
    ensures
        n == 2000,
{
    2000
}

#[derive(Clone, Debug)]
pub struct AdvancedSearchQuery {
    pub query: String,
    pub file_id: Option<Vec<i64>>,
    pub kb_id: Option<Vec<i64>>,
    /// Most steps.
    pub max_sub_queries: usize,
    /// Candidates per step.
    pub per_query_limit: usize,
    /// Context characters on each side.
    pub context_chars: usize,
    /// Emit debug events.
    pub debug: bool,
}

/// A file as search results show it.
#[derive(Clone, Debug)]
pub struct FileInfo {
    pub id: i64,
    pub filename: String,
    pub kb_id: Option<i64>,
    pub is_public: bool,
    pub user_id: String,
    pub created_at: i64,
}

/// A knowledge base as search results show it.
#[derive(Clone, Debug)]
pub struct KbInfo {
    pub id: i64,
    pub name: String,
    pub is_public: bool,
    pub user_id: String,
}

#[derive(Clone, Debug)]
pub struct SlicePosition {
    pub page_idx: i32,
    pub bbox: [i32; 4],
    pub sheet_name: Option<String>,
    pub row_num: Option<i32>,
}

#[derive(Debug)]
pub struct ImageSearchQuery {
    pub file_id: Option<Vec<i64>>,
    pub kb_id: Option<Vec<i64>>,
}

#[derive(Debug)]
pub struct LexiconListQuery {
    /// Matches the term.
    pub q: Option<String>,
    pub enabled: Option<bool>,
    /// Most items (default 50).
    pub limit: i64,
    pub offset: i64,
}

#[derive(Clone, Debug)]
pub struct LexiconItem {
    pub id: i64,
    pub term: String,
    pub freq: Option<i64>,
    pub tag: Option<String>,
    pub enabled: bool,
    pub created_at: i64,
    pub updated_at: i64,
}

#[derive(Debug)]
pub struct LexiconListResponse {
    pub total: i64,
    pub items: Vec<LexiconItem>,
}

#[derive(Debug)]
pub struct DeleteLexiconResponse {
    pub id: i64,
    pub deleted: bool,
}

#[derive(Debug)]
pub struct ReloadLexiconResponse {
    pub loaded: usize,
}

#[derive(Debug)]
pub struct PublishLexiconResponse {
    pub job_id: i64,
    pub status: String,
}

#[derive(Debug)]
pub struct CreateLexiconReq {
    pub term: String,
    pub freq: Option<i64>,
    pub tag: Option<String>,
    pub enabled: bool,
}

#[derive(Debug)]
pub struct UpdateLexiconReq {
    pub term: Option<String>,
    pub freq: Option<i64>,
    pub tag: Option<String>,
    pub enabled: Option<bool>,
}

#[derive(Debug)]
pub struct ToggleLexiconReq {
    pub enabled: bool,
}

/// A lexicon row as stored (`enabled` as an integer).
#[derive(Debug)]
pub struct LexiconItemRow {
    pub id: i64,
    pub term: String,
    pub freq: Option<i64>,
    pub tag: Option<String>,
    pub enabled: i64,
    pub created_at: i64,
    pub updated_at: i64,
}

#[derive(Debug)]
pub struct SynonymListQuery {
    /// Matches the term or the synonym.
    pub q: Option<String>,
    pub enabled: Option<bool>,
    /// Most items (default 50).
    pub limit: i64,
    pub offset: i64,
}

/// Default page size of lexicon and synonym lists.
pub fn default_synonym_limit() -> (n: i64)
    ensures
        n == 50,
{
    50
}

#[derive(Debug)]
pub struct DeleteSynonymResponse {
    pub id: i64,
    pub deleted: bool,
}

#[derive(Debug)]
pub struct ToggleSynonymReq {
    pub enabled: bool,
}

/// Synonyms apply both ways by default.
pub fn default_synonym_bidirectional() -> (b: bool)
    ensures
        b,
{
    true
}

/// New synonyms and terms are enabled by default.
pub fn default_synonym_enabled() -> (b: bool)
    ensures
        b,
{
    true
}

/// Visibility of a result: admins see everything; otherwise a private file or
/// knowledge base is seen only by its owner.
pub open spec fn visible(file: Option<(bool, Seq<char>)>, kb: Option<(bool, Seq<char>)>, user_id: Seq<char>, is_admin: bool) -> bool {
    is_admin || ((file matches Some((p, o)) ==> p || o == user_id) && (kb matches Some((p, o)) ==> p
        || o == user_id))
}

/// View of an optional visibility pair.
pub open spec fn pair_view(x: Option<(bool, &str)>) -> Option<(bool, Seq<char>)> {
    match x {
        Some((p, o)) => Some((p, o@)),
        None => None,
    }
}

/// Whether a user may see a result from the given file and knowledge base
/// (each given by its public flag and owner).
pub fn has_visibility_permission(
    file: Option<(bool, &str)>,
    kb: Option<(bool, &str)>,
    user_id: &str,
    is_admin: bool,
) -> (b: bool)
    ensures
        b == visible(pair_view(file), pair_view(kb), user_id@, is_admin),
{
    if is_admin {
        return true;
    }
    if let Some((is_public, owner_id)) = file {
        if !is_public && !str_eq(owner_id, user_id) {
            return false;
        }
    }
    if let Some((is_public, owner_id)) = kb {
        if !is_public && !str_eq(owner_id, user_id) {
            return false;
        }
    }
    true
}

/// Visibility pair of a file.
pub open spec fn file_pair(f: Option<&FileInfo>) -> Option<(bool, Seq<char>)> {
    match f {
        Some(x) => Some((x.is_public, x.user_id@)),
        None => None,
    }
}

/// Visibility pair of a knowledge base.
pub open spec fn kb_pair(k: Option<&KbInfo>) -> Option<(bool, Seq<char>)> {
    match k {
        Some(x) => Some((x.is_public, x.user_id@)),
        None => None,
    }
}

/// Whether a user may see a result from the given file and knowledge base.
pub fn has_permission(file: Option<&FileInfo>, kb: Option<&KbInfo>, user_id: &str, is_admin: bool) -> (b: bool)
    ensures
        b == visible(file_pair(file), kb_pair(kb), user_id@, is_admin),
{
    let f = match file {
        Some(x) => Some((x.is_public, x.user_id.as_str())),
        None => None,
    };
    let k = match kb {
        Some(x) => Some((x.is_public, x.user_id.as_str())),
        None => None,
    };
    has_visibility_permission(f, k, user_id, is_admin)
}

/// The scope resolved to no knowledge base at all (as opposed to no filter).
pub fn no_accessible_kb_scope(kb_ids: Option<&[i64]>) -> (b: bool)
    ensures
        b == (kb_ids matches Some(ids) && ids@.len() == 0),
{
    match kb_ids {
        Some(ids) => ids.len() == 0,
        None => false,
    }
}

/// View of an optional list of strings as character sequences.
pub open spec fn opt_strings(v: Seq<String>) -> Seq<Seq<char>> {
    v.map_values(|s: String| s@)
}

/// Whether `x` occurs among `contents[k]` for the kept positions `k`.
pub open spec fn content_kept(contents: Seq<Seq<char>>, kept: Seq<usize>, x: Seq<char>) -> bool {
    exists|j: int| 0 <= j < kept.len() && contents[kept[j] as int] == x
}

/// Positions of the raw results that are shown: those the user may see,
/// and, when `dedupe_by_content`, only the first of those with equal content.
pub open spec fn shown_results(
    files: Seq<Option<(bool, Seq<char>)>>,
    kbs: Seq<Option<(bool, Seq<char>)>>,
    contents: Seq<Seq<char>>,
    user_id: Seq<char>,
    is_admin: bool,
    dedupe_by_content: bool,
    n: int,
) -> Seq<usize>
    decreases n,
{
    if n <= 0 {
        seq![]
    } else {
        let prev = shown_results(files, kbs, contents, user_id, is_admin, dedupe_by_content, n - 1);
        let i = n - 1;
        if !visible(files[i], kbs[i], user_id, is_admin) {
            prev
        } else if dedupe_by_content && content_kept(contents, prev, contents[i]) {
            prev
        } else {
            prev.push(i as usize)
        }
    }
}

/// Visibility pairs of a list of optional files.
pub open spec fn files_view(v: Seq<Option<FileInfo>>) -> Seq<Option<(bool, Seq<char>)>> {
    v.map_values(|f: Option<FileInfo>| match f {
        Some(x) => Some((x.is_public, x.user_id@)),
        None => None,
    })
}

/// Visibility pairs of a list of optional knowledge bases.
pub open spec fn kbs_view(v: Seq<Option<KbInfo>>) -> Seq<Option<(bool, Seq<char>)>> {
    v.map_values(|k: Option<KbInfo>| match k {
        Some(x) => Some((x.is_public, x.user_id@)),
        None => None,
    })
}

/// Chooses which raw search results are shown to the user, given for each
/// result its file, its knowledge base and its content.
pub fn shown_result_positions(
    files: &Vec<Option<FileInfo>>,
    kbs: &Vec<Option<KbInfo>>,
    contents: &Vec<String>,
    user_id: &str,
    is_admin: bool,
    dedupe_by_content: bool,
) -> (r: Vec<usize>)
    requires
        files@.len() == kbs@.len() == contents@.len(),
    ensures
        r@ == shown_results(
            files_view(files@),
            kbs_view(kbs@),
            opt_strings(contents@),
            user_id@,
            is_admin,
            dedupe_by_content,
            contents@.len() as int,
        ),
{
    let ghost fv = files_view(files@);
    let ghost kv = kbs_view(kbs@);
    let ghost cv = opt_strings(contents@);
    let n = contents.len();
    let mut kept: Vec<usize> = Vec::new();
    let mut i: usize = 0;
    while i < n
        invariant
            i <= n == contents@.len() == files@.len() == kbs@.len(),
            fv == files_view(files@),
            kv == kbs_view(kbs@),
            cv == opt_strings(contents@),
            kept@ == shown_results(fv, kv, cv, user_id@, is_admin, dedupe_by_content, i as int),
            forall|j: int| 0 <= j < kept@.len() ==> kept@[j] < i,
        decreases n - i,
    {
        let f = match &files[i] {
            Some(x) => Some(x),
            None => None,
        };
        let k = match &kbs[i] {
            Some(x) => Some(x),
            None => None,
        };
        proof {
            assert(file_pair(f) == fv[i as int]);
            assert(kb_pair(k) == kv[i as int]);
        }
        if has_permission(f, k, user_id, is_admin) {
            let mut dup = false;
            if dedupe_by_content {
                dup = content_seen(contents, &kept, i);
            }
            if !dup {
                kept.push(i);
            }
        }
        i = i + 1;
    }
    kept
}

/// Whether the content at `i` equals the content at one of the kept positions.
fn content_seen(contents: &Vec<String>, kept: &Vec<usize>, i: usize) -> (b: bool)
    requires
        i < contents@.len(),
        forall|m: int| 0 <= m < kept@.len() ==> kept@[m] < i,
    ensures
        b == content_kept(opt_strings(contents@), kept@, opt_strings(contents@)[i as int]),
{
    let ghost cv = opt_strings(contents@);
    let mut j: usize = 0;
    while j < kept.len()
        invariant
            j <= kept@.len(),
            forall|m: int| 0 <= m < kept@.len() ==> kept@[m] < i,
            i < contents@.len(),
            cv == opt_strings(contents@),
            forall|m: int| 0 <= m < j ==> cv[kept@[m] as int] != cv[i as int],
        decreases kept@.len() - j,
    {
        if str_eq(contents[kept[j]].as_str(), contents[i].as_str()) {
            assert(cv[kept@[j as int] as int] == cv[i as int]);
            return true;
        }
        j = j + 1;
    }
    false
}

/// A result is shown exactly when the user may see it (an administrator sees
/// everything; otherwise its file, when there is one, is public or the
/// user's, and so is its knowledge base) and, with deduplication, no result
/// shown before it has the same content. In particular a public file of
/// another user is shown to everyone.
pub proof fn lemma_shown_results_complete(
    files: Seq<Option<(bool, Seq<char>)>>,
    kbs: Seq<Option<(bool, Seq<char>)>>,
    contents: Seq<Seq<char>>,
    user_id: Seq<char>,
    is_admin: bool,
    dedupe_by_content: bool,
    n: int,
)
    requires
        0 <= n <= files.len(),
        n <= kbs.len(),
        n <= contents.len(),
        n <= usize::MAX,
    ensures
        ({
            let s = shown_results(files, kbs, contents, user_id, is_admin, dedupe_by_content, n);
            forall|i: int|
                #![trigger files[i]]
                0 <= i < n ==> (s.contains(i as usize) <==> {
                    &&& (is_admin || ((files[i] matches Some((p, o)) ==> p || o == user_id) && (kbs[i] matches Some(
                        (p, o),
                    ) ==> p || o == user_id)))
                    &&& dedupe_by_content ==> !exists|j: int|
                        0 <= j < s.len() && (s[j] as int) < i && #[trigger] contents[s[j] as int] == contents[i]
                })
        }),
    decreases n,
{
    if n > 0 {
        lemma_shown_results_complete(files, kbs, contents, user_id, is_admin, dedupe_by_content, n - 1);
        lemma_shown_results_visible_and_distinct(files, kbs, contents, user_id, is_admin, dedupe_by_content, n - 1);
        let prev = shown_results(files, kbs, contents, user_id, is_admin, dedupe_by_content, n - 1);
        let s = shown_results(files, kbs, contents, user_id, is_admin, dedupe_by_content, n);
        let last = n - 1;
        assert(s == prev || s == prev.push(last as usize));
        assert forall|i: int| #![trigger files[i]] 0 <= i < n implies (s.contains(i as usize) <==> {
            &&& (is_admin || ((files[i] matches Some((p, o)) ==> p || o == user_id) && (kbs[i] matches Some((p, o)) ==> p
                || o == user_id)))
            &&& dedupe_by_content ==> !exists|j: int|
                0 <= j < s.len() && (s[j] as int) < i && #[trigger] contents[s[j] as int] == contents[i]
        }) by {
            if i < last {
                if s.contains(i as usize) {
                    let k = choose|k: int| 0 <= k < s.len() && s[k] == i as usize;
                    if k < prev.len() {
                        assert(prev[k] == s[k]);
                    }
                    assert(prev.contains(i as usize));
                }
                if prev.contains(i as usize) {
                    let k = choose|k: int| 0 <= k < prev.len() && prev[k] == i as usize;
                    assert(s[k] == prev[k]);
                    assert(s.contains(i as usize));
                }
                if exists|j: int| 0 <= j < s.len() && (s[j] as int) < i && #[trigger] contents[s[j] as int] == contents[i] {
                    let j = choose|j: int| 0 <= j < s.len() && (s[j] as int) < i && #[trigger] contents[s[j] as int] == contents[i];
                    if j >= prev.len() {
                        assert(s[j] as int == last);
                    }
                    assert(prev[j] == s[j]);
                }
                if exists|j: int| 0 <= j < prev.len() && (prev[j] as int) < i && #[trigger] contents[prev[j] as int] == contents[i] {
                    let j = choose|j: int| 0 <= j < prev.len() && (prev[j] as int) < i && #[trigger] contents[prev[j] as int] == contents[i];
                    assert(s[j] == prev[j]);
                }
            } else {
                assert(i == last);
                assert(!prev.contains(i as usize)) by {
                    if prev.contains(i as usize) {
                        let k = choose|k: int| 0 <= k < prev.len() && prev[k] == i as usize;
                        assert((prev[k] as int) < n - 1);
                    }
                }
                if s == prev.push(last as usize) {
                    assert(s[prev.len() as int] == last as usize);
                    assert(s.contains(i as usize));
                } else {
                    if s.contains(i as usize) {
                        let k = choose|k: int| 0 <= k < s.len() && s[k] == i as usize;
                        assert(prev[k] == s[k]);
                    }
                }
                if content_kept(contents, prev, contents[i]) {
                    let j = choose|j: int| 0 <= j < prev.len() && contents[prev[j] as int] == contents[i];
                    assert(s[j] == prev[j]);
                    assert((s[j] as int) < i);
                }
                if exists|j: int| 0 <= j < s.len() && (s[j] as int) < i && #[trigger] contents[s[j] as int] == contents[i] {
                    let j = choose|j: int| 0 <= j < s.len() && (s[j] as int) < i && #[trigger] contents[s[j] as int] == contents[i];
                    if j >= prev.len() {
                        assert(s[j] as int == last);
                    }
                    assert(prev[j] == s[j]);
                    assert(content_kept(contents, prev, contents[i]));
                }
            }
        }
    }
}

/// Every shown result is visible to the user, and with deduplication no two
/// shown results have the same content.
pub proof fn lemma_shown_results_visible_and_distinct(
    files: Seq<Option<(bool, Seq<char>)>>,
    kbs: Seq<Option<(bool, Seq<char>)>>,
    contents: Seq<Seq<char>>,
    user_id: Seq<char>,
    is_admin: bool,
    dedupe_by_content: bool,
    n: int,
)
    requires
        0 <= n <= files.len(),
        n <= kbs.len(),
        n <= contents.len(),
        n <= usize::MAX,
    ensures
        ({
            let s = shown_results(files, kbs, contents, user_id, is_admin, dedupe_by_content, n);
            &&& forall|j: int| 0 <= j < s.len() ==> (s[j] as int) < n && visible(files[s[j] as int], kbs[s[j] as int], user_id, is_admin)
            &&& forall|a: int, b: int| 0 <= a < b < s.len() ==> s[a] < s[b]
            &&& dedupe_by_content ==> forall|a: int, b: int| 0 <= a < b < s.len() ==> contents[s[a] as int] != contents[s[b] as int]
        }),
    decreases n,
{
    if n > 0 {
        lemma_shown_results_visible_and_distinct(files, kbs, contents, user_id, is_admin, dedupe_by_content, n - 1);
        let prev = shown_results(files, kbs, contents, user_id, is_admin, dedupe_by_content, n - 1);
        let s = shown_results(files, kbs, contents, user_id, is_admin, dedupe_by_content, n);
        if s.len() > prev.len() {
            assert(s == prev.push((n - 1) as usize));
            if dedupe_by_content {
                assert forall|a: int, b: int| 0 <= a < b < s.len() implies contents[s[a] as int] != contents[s[b] as int] by {
                    if b == s.len() - 1 {
                        if contents[s[a] as int] == contents[s[b] as int] {
                            assert(content_kept(contents, prev, contents[n - 1]));
                        }
                    }
                }
            }
        }
    }
}

pub const MSG_TERM_EMPTY: &'static str = "term cannot be empty";

pub const MSG_FREQ_POSITIVE: &'static str = "freq must be > 0";

/// The trimmed lexicon term; a blank term is refused.
pub fn normalize_lexicon_term(input: &str) -> (r: ApiResult<String>)
    ensures
        trim(input@).len() == 0 ==> (r matches Err(e) && is_bad_request(e, MSG_TERM_EMPTY@)),
        trim(input@).len() > 0 ==> (r matches Ok(t) && t@ == trim(input@)),
{
    let t = trimmed(input);
    if t.as_str().unicode_len() == 0 {
        return Err(ApiError::bad_request(MSG_TERM_EMPTY));
    }
    Ok(t)
}

/// A lexicon frequency must be positive when given.
pub fn normalize_lexicon_freq(freq: Option<i64>) -> (r: ApiResult<Option<i64>>)
    ensures
        match freq {
            Some(v) => if v <= 0 {
                r matches Err(e) && is_bad_request(e, MSG_FREQ_POSITIVE@)
            } else {
                r == Ok::<Option<i64>, ApiError>(Some(v))
            },
            None => r == Ok::<Option<i64>, ApiError>(None),
        },
{
    match freq {
        Some(value) => if value <= 0 {
            Err(ApiError::bad_request(MSG_FREQ_POSITIVE))
        } else {
            Ok(Some(value))
        },
        None => Ok(None),
    }
}

/// The trimmed tag; a blank or absent tag is none.
pub fn normalize_lexicon_tag(tag: Option<&str>) -> (r: Option<String>)
    ensures
        match tag {
            Some(t) => if trim(t@).len() == 0 {
                r is None
            } else {
                r matches Some(x) && x@ == trim(t@)
            },
            None => r is None,
        },
{
    match tag {
        Some(value) => {
            let t = trimmed(value);
            if t.as_str().unicode_len() == 0 {
                None
            } else {
                Some(t)
            }
        },
        None => None,
    }
}

/// A stored lexicon row as an API item; any non-zero `enabled` is enabled.
pub fn lexicon_row_to_item(row: LexiconItemRow) -> (item: LexiconItem)
    ensures
        item.id == row.id,
        item.term == row.term,
        item.freq == row.freq,
        item.tag == row.tag,
        item.enabled == (row.enabled != 0),
        item.created_at == row.created_at,
        item.updated_at == row.updated_at,
{
    LexiconItem {
        id: row.id,
        term: row.term,
        freq: row.freq,
        tag: row.tag,
        enabled: row.enabled != 0,
        created_at: row.created_at,
        updated_at: row.updated_at,
    }
}

/// The ids written in decimal and separated by `sep`.
pub open spec fn join_ids(ids: Seq<i64>, sep: Seq<char>) -> Seq<char>
    decreases ids.len(),
{
    if ids.len() == 0 {
        seq![]
    } else if ids.len() == 1 {
        decimal_int(ids[0] as int)
    } else {
        join_ids(ids.drop_last(), sep) + sep + decimal_int(ids.last() as int)
    }
}

/// Most ids a log line lists.
pub const LOG_MAX_IDS: usize = 12;

/// How an id filter appears in the log: `all`, `[]`, the ids in debug list
/// notation, or the first `LOG_MAX_IDS` ids followed by the total.
pub open spec fn id_filter_text(ids: Option<Seq<i64>>) -> Seq<char> {
    match ids {
        None => "all"@,
        Some(l) => if l.len() == 0 {
            "[]"@
        } else if l.len() <= LOG_MAX_IDS {
            seq!['['] + join_ids(l, ", "@) + seq![']']
        } else {
            seq!['['] + join_ids(l.take(LOG_MAX_IDS as int), ","@) + "...](total="@ + decimal_nat(l.len()) + seq![')']
        },
    }
}

pub(crate) fn push_joined_ids(out: &mut Vec<char>, ids: &[i64], count: usize, sep: &str)
    requires
        count <= ids@.len(),
    ensures
        final(out)@ == old(out)@ + join_ids(ids@.take(count as int), sep@),
{
    let mut i: usize = 0;
    proof {
        assert(ids@.take(0) =~= Seq::<i64>::empty());
        assert(old(out)@ + join_ids(ids@.take(0), sep@) =~= old(out)@);
    }
    while i < count
        invariant
            i <= count <= ids@.len(),
            out@ == old(out)@ + join_ids(ids@.take(i as int), sep@),
        decreases count - i,
    {
        let ghost before = out@;
        if i > 0 {
            extend_str(out, sep);
        }
        push_i64(ids[i], out);
        proof {
            let t = ids@.take(i + 1);
            assert(t.drop_last() =~= ids@.take(i as int));
            assert(t.last() == ids@[i as int]);
            if i == 0 {
                assert(join_ids(t, sep@) == decimal_int(ids@[0] as int));
                assert(out@ =~= old(out)@ + join_ids(t, sep@));
            } else {
                assert(out@ =~= old(out)@ + join_ids(t, sep@));
            }
        }
        i = i + 1;
    }
}

/// How an id filter appears in the log.
pub fn format_id_filter(ids: Option<&[i64]>) -> (s: String)
    ensures
        s@ == id_filter_text(match ids {
            Some(l) => Some(l@),
            None => None,
        }),
{
    let mut out: Vec<char> = Vec::new();
    match ids {
        None => {
            extend_str(&mut out, "all");
        },
        Some(list) => {
            if list.len() == 0 {
                extend_str(&mut out, "[]");
            } else if list.len() <= LOG_MAX_IDS {
                out.push('[');
                push_joined_ids(&mut out, list, list.len(), ", ");
                out.push(']');
                assert(list@.take(list@.len() as int) =~= list@);
                assert(out@ =~= seq!['['] + join_ids(list@, ", "@) + seq![']']);
            } else {
                out.push('[');
                push_joined_ids(&mut out, list, LOG_MAX_IDS, ",");
                extend_str(&mut out, "...](total=");
                push_usize(list.len(), &mut out);
                out.push(')');
                assert(out@ =~= seq!['['] + join_ids(list@.take(LOG_MAX_IDS as int), ","@) + "...](total="@
                    + decimal_nat(list@.len()) + seq![')']);
            }
        },
    }
    string_from_chars(out.as_slice())
}

/// How a knowledge-base scope appears in the log.
pub open spec fn kb_scope_text(ids: Option<Seq<i64>>) -> Seq<char> {
    match ids {
        None => "all_accessible_kbs"@,
        Some(l) => if l.len() == 0 {
            "no_accessible_kbs"@
        } else {
            decimal_nat(l.len()) + " kbs "@ + id_filter_text(Some(l))
        },
    }
}

/// How a knowledge-base scope appears in the log.
pub fn summarize_kb_scope(kb_ids: Option<&[i64]>) -> (s: String)
    ensures
        s@ == kb_scope_text(match kb_ids {
            Some(l) => Some(l@),
            None => None,
        }),
{
    match kb_ids {
        None => String::from_str("all_accessible_kbs"),
        Some(ids) => {
            if ids.len() == 0 {
                String::from_str("no_accessible_kbs")
            } else {
                let mut out: Vec<char> = Vec::new();
                push_usize(ids.len(), &mut out);
                extend_str(&mut out, " kbs ");
                let f = format_id_filter(Some(ids));
                extend_str(&mut out, f.as_str());
                string_from_chars(out.as_slice())
            }
        },
    }
}

/// A preview: the trimmed text, cut after `max_chars` characters with `...` appended.
pub open spec fn preview(text: Seq<char>, max_chars: nat) -> Seq<char> {
    let t = trim(text);
    if t.len() > max_chars {
        t.take(max_chars as int) + "..."@
    } else {
        t
    }
}

/// A preview of the text for logs and debug events.
pub fn preview_text(text: &str, max_chars: usize) -> (s: String)
    ensures
        s@ == preview(text@, max_chars as nat),
{
    let cs = chars_of(text);
    let (a, b) = trim_range(cs.as_slice());
    if b - a > max_chars {
        let mut out = slice_chars(cs.as_slice(), a, a + max_chars);
        extend_str(&mut out, "...");
        proof {
            assert(out@ =~= trim(text@).take(max_chars as int) + "..."@);
        }
        string_from_chars(out.as_slice())
    } else {
        let out = slice_chars(cs.as_slice(), a, b);
        string_from_chars(out.as_slice())
    }
}

/// Line feeds replaced by spaces.
pub open spec fn newlines_to_spaces(s: Seq<char>) -> Seq<char> {
    s.map_values(|c: char| if c == '\n' { ' ' } else { c })
}

/// A one-line preview for the log.
pub fn preview_for_log(text: &str, max_chars: usize) -> (s: String)
    ensures
        s@ == preview(newlines_to_spaces(text@), max_chars as nat),
{
    let cs = chars_of(text);
    let n = cs.len();
    let mut out: Vec<char> = Vec::new();
    let mut i: usize = 0;
    while i < n
        invariant
            i <= n == cs@.len(),
            cs@ == text@,
            out@ == newlines_to_spaces(cs@.take(i as int)),
        decreases n - i,
    {
        let c = if cs[i] == '\n' {
            ' '
        } else {
            cs[i]
        };
        out.push(c);
        proof {
            assert(newlines_to_spaces(cs@.take(i + 1)) =~= newlines_to_spaces(cs@.take(i as int)).push(c));
        }
        i = i + 1;
    }
    assert(cs@.take(n as int) =~= cs@);
    let joined = string_from_chars(out.as_slice());
    preview_text(joined.as_str(), max_chars)
}

/// Errors of the comma-separated id list syntax.
#[derive(Debug)]
pub enum IdListError {
    /// A piece is not an `i64`; the trimmed piece is given.
    InvalidId(String),
}

/// What a comma-separated id list denotes: `None` for no filter (absent,
/// blank, or only empty pieces), the ids otherwise; `Err` with the first
/// piece that is not an integer.
pub open spec fn id_list(parts: Seq<Seq<char>>) -> Result<Seq<i64>, Seq<char>>
    decreases parts.len(),
{
    if parts.len() == 0 {
        Ok(seq![])
    } else {
        match id_list(parts.drop_last()) {
            Err(e) => Err(e),
            Ok(ids) => {
                let p = trim(parts.last());
                if p.len() == 0 {
                    Ok(ids)
                } else {
                    match parse_int_spec(p, true, i64::MIN as int, i64::MAX as int) {
                        Some(v) => Ok(ids.push(v as i64)),
                        None => Err(p),
                    }
                }
            },
        }
    }
}

/// Parses the value of an id-list query parameter such as `1, 2,3`.
#[verifier::loop_isolation(false)]
pub fn parse_id_list(raw: Option<&str>) -> (r: Result<Option<Vec<i64>>, IdListError>)
    ensures
        match raw {
            None => r matches Ok(None),
            Some(text) => if trim(text@).len() == 0 {
                r matches Ok(None)
            } else {
                match id_list(split_commas(trim(text@))) {
                    Ok(ids) => if ids.len() == 0 {
                        r matches Ok(None)
                    } else {
                        r matches Ok(Some(v)) && v@ == ids
                    },
                    Err(p) => r matches Err(IdListError::InvalidId(s)) && s@ == p,
                }
            },
        },
{
    let text = match raw {
        Some(t) => t,
        None => {
            return Ok(None);
        },
    };
    let cs = chars_of(text);
    let (a, b) = trim_range(cs.as_slice());
    if a == b {
        return Ok(None);
    }
    let t = slice_chars(cs.as_slice(), a, b);
    let parts = split_at_commas(t.as_slice());
    let ghost pv = parts@.map_values(|p: Vec<char>| p@);
    let mut ids: Vec<i64> = Vec::new();
    let n = parts.len();
    let mut i: usize = 0;
    while i < n
        invariant
            i <= n == parts@.len(),
            pv == parts@.map_values(|p: Vec<char>| p@),
            id_list(pv.take(i as int)) == Ok::<Seq<i64>, Seq<char>>(ids@),
        decreases n - i,
    {
        proof {
            assert(pv.take(i + 1).drop_last() =~= pv.take(i as int));
            assert(pv.take(i + 1).last() == parts@[i as int]@);
        }
        let (pa, pb) = trim_range(parts[i].as_slice());
        let piece = slice_chars(parts[i].as_slice(), pa, pb);
        if pa != pb {
            match parse_i64(piece.as_slice()) {
                Some(v) => {
                    ids.push(v);
                },
                None => {
                    let s = string_from_chars(piece.as_slice());
                    proof {
                        lemma_id_list_err_prefix(pv, i as int + 1, piece@);
                    }
                    return Err(IdListError::InvalidId(s));
                },
            }
        }
        i = i + 1;
    }
    assert(pv.take(n as int) =~= pv);
    if ids.len() == 0 {
        Ok(None)
    } else {
        Ok(Some(ids))
    }
}

/// An error in the first pieces is the error of the whole list.
proof fn lemma_id_list_err_prefix(parts: Seq<Seq<char>>, k: int, e: Seq<char>)
    requires
        0 <= k <= parts.len(),
        id_list(parts.take(k)) == Err::<Seq<i64>, Seq<char>>(e),
    ensures
        id_list(parts) == Err::<Seq<i64>, Seq<char>>(e),
    decreases parts.len() - k,
{
    if k < parts.len() {
        assert(parts.take(k + 1).drop_last() =~= parts.take(k));
        lemma_id_list_err_prefix(parts, k + 1, e);
    } else {
        assert(parts.take(k) =~= parts);
    }
}


/// The ids of `m` that also occur in `e`, in the order of `m`.
pub open spec fn keep_listed(m: Seq<i64>, e: Seq<i64>) -> Seq<i64>
    decreases m.len(),
{
    if m.len() == 0 {
        seq![]
    } else {
        let prev = keep_listed(m.drop_last(), e);
        if e.contains(m.last()) { prev.push(m.last()) } else { prev }
    }
}

/// The files a full-text search is limited to. `matched` holds the files
/// whose names match when a name filter is given, `explicit` the files the
/// request lists. `None` means the search finds nothing; `Some(None)` that
/// it is not limited by file.
pub open spec fn full_search_scope(matched: Option<Seq<i64>>, explicit: Option<Seq<i64>>) -> Option<Option<Seq<i64>>> {
    match matched {
        Some(m) => if m.len() == 0 {
            None
        } else {
            match explicit {
                Some(e) => if e.len() > 0 {
                    let kept = keep_listed(m, e);
                    if kept.len() == 0 { None } else { Some(Some(kept)) }
                } else {
                    Some(Some(m))
                },
                None => Some(Some(m)),
            }
        },
        None => Some(explicit),
    }
}

/// Combines a file-name filter's matches with the listed files.
pub fn full_search_file_scope(matched: Option<Vec<i64>>, explicit: Option<Vec<i64>>) -> (r: Option<Option<Vec<i64>>>)
    ensures
        match r {
            None => full_search_scope(opt_ids(matched), opt_ids(explicit)) is None,
            Some(x) => full_search_scope(opt_ids(matched), opt_ids(explicit)) == Some(opt_ids(x)),
        },
{
    match matched {
        Some(m) => {
            if m.len() == 0 {
                return None;
            }
            match explicit {
                Some(e) => {
                    if e.len() > 0 {
                        let mut kept: Vec<i64> = Vec::new();
                        let mut i: usize = 0;
                        while i < m.len()
                            invariant
                                i <= m@.len(),
                                kept@ == keep_listed(m@.take(i as int), e@),
                            decreases m.len() - i,
                        {
                            assert(m@.take(i + 1).drop_last() =~= m@.take(i as int));
                            if crate::api::file::contains_id(&e, m[i]) {
                                kept.push(m[i]);
                            }
                            i = i + 1;
                        }
                        assert(m@.take(m@.len() as int) =~= m@);
                        if kept.len() == 0 {
                            None
                        } else {
                            Some(Some(kept))
                        }
                    } else {
                        Some(Some(m))
                    }
                },
                None => Some(Some(m)),
            }
        },
        None => Some(explicit),
    }
}

/// Plain values of an optional id list.
pub open spec fn opt_ids(o: Option<Vec<i64>>) -> Option<Seq<i64>> {
    match o {
        Some(v) => Some(v@),
        None => None,
    }
}

/// Slices picked to answer a question, best first, and how many of the
/// others were passed over for each reason.
#[derive(Debug)]
pub struct SliceSelection {
    /// Positions of the picked slices in the ranked list.
    pub positions: Vec<usize>,
    /// Slices whose file no longer exists.
    pub missing_file: usize,
    /// Slices the user may not see.
    pub permission_denied: usize,
    /// Slices listed before.
    pub duplicate: usize,
}

/// The knowledge base a slice is judged by: its own where known, else its
/// file's.
pub open spec fn judged_kb(slice_kb: Option<(bool, Seq<char>)>, file_kb: Option<(bool, Seq<char>)>) -> Option<(bool, Seq<char>)> {
    match slice_kb {
        Some(k) => Some(k),
        None => file_kb,
    }
}

/// The selection after going through the first `n` ranked slices: picks,
/// missing files, denials and duplicates. Once `limit` slices are picked the
/// rest are not looked at.
pub open spec fn slice_selection(
    ids: Seq<i64>,
    files: Seq<Option<(bool, Seq<char>)>>,
    slice_kbs: Seq<Option<(bool, Seq<char>)>>,
    file_kbs: Seq<Option<(bool, Seq<char>)>>,
    user_id: Seq<char>,
    is_admin: bool,
    limit: int,
    n: int,
) -> (Seq<usize>, int, int, int)
    decreases n,
{
    if n <= 0 {
        (seq![], 0, 0, 0)
    } else {
        let prev = slice_selection(ids, files, slice_kbs, file_kbs, user_id, is_admin, limit, n - 1);
        let i = n - 1;
        if prev.0.len() >= limit {
            prev
        } else if ids.take(i).contains(ids[i]) {
            (prev.0, prev.1, prev.2, prev.3 + 1)
        } else if files[i] is None {
            (prev.0, prev.1 + 1, prev.2, prev.3)
        } else if !visible(files[i], judged_kb(slice_kbs[i], file_kbs[i]), user_id, is_admin) {
            (prev.0, prev.1, prev.2 + 1, prev.3)
        } else {
            (prev.0.push(i as usize), prev.1, prev.2, prev.3)
        }
    }
}

proof fn lemma_selection_full(
    ids: Seq<i64>,
    files: Seq<Option<(bool, Seq<char>)>>,
    slice_kbs: Seq<Option<(bool, Seq<char>)>>,
    file_kbs: Seq<Option<(bool, Seq<char>)>>,
    user_id: Seq<char>,
    is_admin: bool,
    limit: int,
    i: int,
    n: int,
)
    requires
        0 <= i <= n,
        slice_selection(ids, files, slice_kbs, file_kbs, user_id, is_admin, limit, i).0.len() >= limit,
    ensures
        slice_selection(ids, files, slice_kbs, file_kbs, user_id, is_admin, limit, n)
            == slice_selection(ids, files, slice_kbs, file_kbs, user_id, is_admin, limit, i),
    decreases n - i,
{
    if n > i {
        lemma_selection_full(ids, files, slice_kbs, file_kbs, user_id, is_admin, limit, i, n - 1);
    }
}

/// Goes through ranked slices (best first) and picks, up to `limit`, those
/// seen for the first time whose file exists and that the user may see;
/// `slice_kbs` holds each slice's own knowledge base where known and
/// `file_kbs` its file's.
pub fn select_slices(
    ids: &Vec<i64>,
    files: &Vec<Option<FileInfo>>,
    slice_kbs: &Vec<Option<KbInfo>>,
    file_kbs: &Vec<Option<KbInfo>>,
    user_id: &str,
    is_admin: bool,
    limit: usize,
) -> (r: SliceSelection)
    requires
        files@.len() == ids@.len(),
        slice_kbs@.len() == ids@.len(),
        file_kbs@.len() == ids@.len(),
    ensures
        (r.positions@, r.missing_file as int, r.permission_denied as int, r.duplicate as int) == slice_selection(
            ids@,
            files_view(files@),
            kbs_view(slice_kbs@),
            kbs_view(file_kbs@),
            user_id@,
            is_admin,
            limit as int,
            ids@.len() as int,
        ),
{
    let ghost fv = files_view(files@);
    let ghost sk = kbs_view(slice_kbs@);
    let ghost fk = kbs_view(file_kbs@);
    let n = ids.len();
    let mut picked: Vec<usize> = Vec::new();
    let mut missing: usize = 0;
    let mut denied: usize = 0;
    let mut dup: usize = 0;
    let mut i: usize = 0;
    while i < n && picked.len() < limit
        invariant
            i <= n == ids@.len() == files@.len() == slice_kbs@.len() == file_kbs@.len(),
            fv == files_view(files@),
            sk == kbs_view(slice_kbs@),
            fk == kbs_view(file_kbs@),
            missing + denied + dup + picked@.len() <= i,
            (picked@, missing as int, denied as int, dup as int) == slice_selection(ids@, fv, sk, fk, user_id@, is_admin, limit as int, i as int),
        decreases n - i,
    {
        let id = ids[i];
        let mut seen = false;
        let mut k: usize = 0;
        while k < i
            invariant
                k <= i < ids@.len(),
                id == ids@[i as int],
                seen == exists|m: int| 0 <= m < k && ids@[m] == id,
            decreases i - k,
        {
            if ids[k] == id {
                seen = true;
            }
            k = k + 1;
        }
        proof {
            if seen {
                let m = choose|m: int| 0 <= m < i && ids@[m] == id;
                assert(ids@.take(i as int)[m] == id);
            } else {
                assert forall|m: int| 0 <= m < ids@.take(i as int).len() implies ids@.take(i as int)[m] != id by {
                    assert(ids@.take(i as int)[m] == ids@[m]);
                }
            }
        }
        if seen {
            dup = dup + 1;
        } else {
            match &files[i] {
                None => {
                    missing = missing + 1;
                },
                Some(f) => {
                    let kb = match &slice_kbs[i] {
                        Some(k) => Some(k),
                        None => match &file_kbs[i] {
                            Some(k) => Some(k),
                            None => None,
                        },
                    };
                    assert(kb_pair(kb) == judged_kb(sk[i as int], fk[i as int]));
                    if has_permission(Some(f), kb, user_id, is_admin) {
                        picked.push(i);
                    } else {
                        denied = denied + 1;
                    }
                },
            }
        }
        i = i + 1;
    }
    proof {
        if i < n {
            lemma_selection_full(ids@, fv, sk, fk, user_id@, is_admin, limit as int, i as int, n as int);
        }
    }
    SliceSelection { positions: picked, missing_file: missing, permission_denied: denied, duplicate: dup }
}

/// A selection holds at most `limit` slices, in ranked order, no slice id
/// twice, each with an existing file that the user may see.
pub proof fn lemma_selection_sound(
    ids: Seq<i64>,
    files: Seq<Option<(bool, Seq<char>)>>,
    slice_kbs: Seq<Option<(bool, Seq<char>)>>,
    file_kbs: Seq<Option<(bool, Seq<char>)>>,
    user_id: Seq<char>,
    is_admin: bool,
    limit: int,
    n: int,
)
    requires
        0 <= n <= ids.len() <= usize::MAX,
        0 <= limit,
    ensures
        ({
            let sel = slice_selection(ids, files, slice_kbs, file_kbs, user_id, is_admin, limit, n).0;
            &&& sel.len() <= limit
            &&& forall|k: int| 0 <= k < sel.len() ==> {
                &&& (sel[k] as int) < n
                &&& files[sel[k] as int] is Some
                &&& visible(files[sel[k] as int], judged_kb(slice_kbs[sel[k] as int], file_kbs[sel[k] as int]), user_id, is_admin)
            }
            &&& forall|a: int, b: int| 0 <= a < b < sel.len() ==> sel[a] < sel[b] && ids[sel[a] as int] != ids[sel[b] as int]
        }),
    decreases n,
{
    if n > 0 {
        lemma_selection_sound(ids, files, slice_kbs, file_kbs, user_id, is_admin, limit, n - 1);
        let prev = slice_selection(ids, files, slice_kbs, file_kbs, user_id, is_admin, limit, n - 1).0;
        let sel = slice_selection(ids, files, slice_kbs, file_kbs, user_id, is_admin, limit, n).0;
        let i = n - 1;
        if sel.len() == prev.len() + 1 {
            assert(sel == prev.push(i as usize));
            assert((i as usize) as int == i);
            assert(!ids.take(i).contains(ids[i]));
            assert forall|a: int, b: int| 0 <= a < b < sel.len() implies sel[a] < sel[b] && ids[sel[a] as int] != ids[sel[b] as int] by {
                if b == sel.len() - 1 {
                    assert(ids.take(i)[sel[a] as int] == ids[sel[a] as int]);
                }
            }
        }
    }
}


/// The kind of a step in an advanced-search plan.
#[derive(Clone, Copy, Debug, PartialEq, Eq, Structural)]
pub enum PlanStepKind {
    /// Collect the slices most relevant to the query.
    RecentDocuments,
    /// Analyse the structure of a document (not run by this flow).
    DocumentStructure,
    /// Read pages around the candidate slices and judge them.
    PageContent,
}

/// Where a run of an advanced-search plan stands.
#[derive(Debug)]
pub enum PlanState {
    /// Nothing has happened yet.
    Idle,
    /// The planner has been asked for a plan.
    AwaitingPlan,
    /// Ready to start step `next` of `steps`; `has_candidates` says whether
    /// slice candidates are at hand.
    Running { steps: Vec<PlanStepKind>, next: usize, has_candidates: bool },
    /// Step `next` asked for slice candidates; `refill` when it is a page step
    /// that found none at hand.
    AwaitingCandidates { steps: Vec<PlanStepKind>, next: usize, refill: bool },
    /// Step `next` is reading and judging pages.
    AwaitingPage { steps: Vec<PlanStepKind>, next: usize },
    /// The run is over; `selected` says whether a slice was selected.
    Finished { selected: bool },
}

/// What the outside world reports to a plan run.
#[derive(Debug)]
pub enum PlanEvent {
    /// Start a run for a request with this `max_sub_queries`.
    Begin { max_sub_queries: usize },
    /// The planner's steps.
    Planned(Vec<PlanStepKind>),
    /// The number of slice candidates collected.
    Candidates(usize),
    /// Whether the page step selected a slice.
    PageOutcome(bool),
    /// What the last action asked for is done; go on.
    Continue,
}

/// What a plan run asks the outside world to do next.
#[derive(Clone, Copy, Debug, PartialEq, Eq, Structural)]
pub enum PlanAction {
    /// Ask the planner for at most `limit` sub-queries.
    CallPlanner { limit: usize },
    /// Announce the plan, then report `Continue`.
    AnnouncePlan,
    /// Collect slice candidates for step `step`, then report `Candidates`.
    CollectCandidates { step: usize },
    /// Report the candidates of step `step` as completed, then `Continue`.
    CompleteCollection { step: usize, count: usize },
    /// Report step `step` as skipped because this flow does not analyse
    /// document structure, then `Continue`.
    SkipStructure { step: usize },
    /// Report step `step` as skipped because no slices were found, then
    /// `Continue`.
    SkipNoSlices { step: usize },
    /// Run the page step `step` on the candidates, then report `PageOutcome`.
    RunPageStep { step: usize },
    /// Report page step `step` as completed without a selection, then
    /// `Continue`.
    CompletePageStep { step: usize },
    /// The run is over.
    Finish { selected: bool },
    /// The event does not fit the state; nothing to do.
    Ignore,
}

/// Where a run goes from `Running` at step `next`.
pub open spec fn plan_step_from(steps: Vec<PlanStepKind>, next: usize, has_candidates: bool) -> (PlanState, PlanAction) {
    if next >= steps.len() {
        (PlanState::Finished { selected: false }, PlanAction::Finish { selected: false })
    } else {
        match steps@[next as int] {
            PlanStepKind::RecentDocuments => (
                PlanState::AwaitingCandidates { steps, next, refill: false },
                PlanAction::CollectCandidates { step: next },
            ),
            PlanStepKind::DocumentStructure => (
                PlanState::Running { steps, next: (next + 1) as usize, has_candidates },
                PlanAction::SkipStructure { step: next },
            ),
            PlanStepKind::PageContent => if has_candidates {
                (PlanState::AwaitingPage { steps, next }, PlanAction::RunPageStep { step: next })
            } else {
                (
                    PlanState::AwaitingCandidates { steps, next, refill: true },
                    PlanAction::CollectCandidates { step: next },
                )
            },
        }
    }
}

/// The decisions of an advanced-search run: the planner is asked once, an
/// empty plan ends the run with nothing selected, a document step collects
/// candidates, a structure step is skipped, a page step refills candidates
/// when none are at hand and is skipped when there are still none, and a
/// selection ends the run.
pub open spec fn plan_transition(state: PlanState, event: PlanEvent) -> (PlanState, PlanAction) {
    match (state, event) {
        (PlanState::Idle, PlanEvent::Begin { max_sub_queries }) => (
            PlanState::AwaitingPlan,
            PlanAction::CallPlanner { limit: if max_sub_queries < 1 { 1 } else { max_sub_queries } },
        ),
        (PlanState::AwaitingPlan, PlanEvent::Planned(steps)) => if steps.len() == 0 {
            (PlanState::Finished { selected: false }, PlanAction::Finish { selected: false })
        } else {
            (PlanState::Running { steps, next: 0, has_candidates: false }, PlanAction::AnnouncePlan)
        },
        (PlanState::Running { steps, next, has_candidates }, PlanEvent::Continue) => plan_step_from(
            steps,
            next,
            has_candidates,
        ),
        (PlanState::AwaitingCandidates { steps, next, refill }, PlanEvent::Candidates(count)) => if !refill {
            (
                PlanState::Running { steps, next: (next + 1) as usize, has_candidates: count > 0 },
                PlanAction::CompleteCollection { step: next, count },
            )
        } else if count == 0 {
            (
                PlanState::Running { steps, next: (next + 1) as usize, has_candidates: false },
                PlanAction::SkipNoSlices { step: next },
            )
        } else {
            (PlanState::AwaitingPage { steps, next }, PlanAction::RunPageStep { step: next })
        },
        (PlanState::AwaitingPage { steps, next }, PlanEvent::PageOutcome(selected)) => if selected {
            (PlanState::Finished { selected: true }, PlanAction::Finish { selected: true })
        } else {
            (
                PlanState::Running { steps, next: (next + 1) as usize, has_candidates: true },
                PlanAction::CompletePageStep { step: next },
            )
        },
        (state, _) => (state, PlanAction::Ignore),
    }
}

/// Whether a state's step position lies within its plan.
pub open spec fn plan_state_wf(state: PlanState) -> bool {
    match state {
        PlanState::Running { steps, next, .. } => next <= steps.len(),
        PlanState::AwaitingCandidates { steps, next, .. } => next < steps.len(),
        PlanState::AwaitingPage { steps, next } => next < steps.len(),
        _ => true,
    }
}

/// One step of an advanced-search run: from the state and what the outside
/// world reported, the next state and what to do next.
pub fn advanced_plan_step(state: PlanState, event: PlanEvent) -> (r: (PlanState, PlanAction))
    requires
        plan_state_wf(state),
    ensures
        r == plan_transition(state, event),
        plan_state_wf(r.0),
{
    match (state, event) {
        (PlanState::Idle, PlanEvent::Begin { max_sub_queries }) => (
            PlanState::AwaitingPlan,
            PlanAction::CallPlanner { limit: if max_sub_queries < 1 { 1 } else { max_sub_queries } },
        ),
        (PlanState::AwaitingPlan, PlanEvent::Planned(steps)) => if steps.len() == 0 {
            (PlanState::Finished { selected: false }, PlanAction::Finish { selected: false })
        } else {
            (PlanState::Running { steps, next: 0, has_candidates: false }, PlanAction::AnnouncePlan)
        },
        (PlanState::Running { steps, next, has_candidates }, PlanEvent::Continue) => {
            if next >= steps.len() {
                (PlanState::Finished { selected: false }, PlanAction::Finish { selected: false })
            } else {
                match steps[next] {
                    PlanStepKind::RecentDocuments => (
                        PlanState::AwaitingCandidates { steps, next, refill: false },
                        PlanAction::CollectCandidates { step: next },
                    ),
                    PlanStepKind::DocumentStructure => (
                        PlanState::Running { steps, next: next + 1, has_candidates },
                        PlanAction::SkipStructure { step: next },
                    ),
                    PlanStepKind::PageContent => if has_candidates {
                        (PlanState::AwaitingPage { steps, next }, PlanAction::RunPageStep { step: next })
                    } else {
                        (
                            PlanState::AwaitingCandidates { steps, next, refill: true },
                            PlanAction::CollectCandidates { step: next },
                        )
                    },
                }
            }
        },
        (PlanState::AwaitingCandidates { steps, next, refill }, PlanEvent::Candidates(count)) => if !refill {
            (
                PlanState::Running { steps, next: next + 1, has_candidates: count > 0 },
                PlanAction::CompleteCollection { step: next, count },
            )
        } else if count == 0 {
            (PlanState::Running { steps, next: next + 1, has_candidates: false }, PlanAction::SkipNoSlices { step: next })
        } else {
            (PlanState::AwaitingPage { steps, next }, PlanAction::RunPageStep { step: next })
        },
        (PlanState::AwaitingPage { steps, next }, PlanEvent::PageOutcome(selected)) => if selected {
            (PlanState::Finished { selected: true }, PlanAction::Finish { selected: true })
        } else {
            (PlanState::Running { steps, next: next + 1, has_candidates: true }, PlanAction::CompletePageStep { step: next })
        },
        (state, _) => (state, PlanAction::Ignore),
    }
}

/// The planner is asked exactly when a run begins from `Idle`, and no step
/// leads back to `Idle`: a run asks the planner at most once.
pub proof fn lemma_planner_asked_once(state: PlanState, event: PlanEvent)
    ensures
        plan_transition(state, event).1 is CallPlanner <==> (state is Idle && event is Begin),
        !(state is Idle) ==> !(plan_transition(state, event).0 is Idle),
{
}

/// An empty plan ends the run with nothing selected, and a finished run
/// stays finished and asks for nothing more, whatever is reported.
pub proof fn lemma_empty_plan_ends(steps: Vec<PlanStepKind>, selected: bool, event: PlanEvent)
    requires
        steps.len() == 0,
    ensures
        plan_transition(PlanState::AwaitingPlan, PlanEvent::Planned(steps))
            == (PlanState::Finished { selected: false }, PlanAction::Finish { selected: false }),
        plan_transition(PlanState::Finished { selected }, event)
            == (PlanState::Finished { selected }, PlanAction::Ignore),
{
}

/// A collection step moves on to the next step with candidates at hand
/// exactly when it found some; so a page step right after an empty
/// collection asks for candidates again instead of running, and one after a
/// non-empty collection runs on them.
pub proof fn lemma_collection_sets_candidates(steps: Vec<PlanStepKind>, next: usize, count: usize)
    requires
        next < steps.len(),
    ensures
        plan_transition(PlanState::AwaitingCandidates { steps, next, refill: false }, PlanEvent::Candidates(count))
            == (
            PlanState::Running { steps: steps, next: (next + 1) as usize, has_candidates: count > 0 },
            PlanAction::CompleteCollection { step: next, count },
        ),
        next + 1 < steps.len() && steps@[next + 1] == PlanStepKind::PageContent ==> plan_transition(
            PlanState::Running { steps: steps, next: (next + 1) as usize, has_candidates: count > 0 },
            PlanEvent::Continue,
        ).1 == (if count > 0 {
            PlanAction::RunPageStep { step: (next + 1) as usize }
        } else {
            PlanAction::CollectCandidates { step: (next + 1) as usize }
        }),
{
}

/// A page step only runs on candidates: it runs straight away when some are
/// at hand, and after a refill only when the refill found some; an empty
/// refill skips the step, and a page step without a selection keeps the
/// candidates for the next one.
pub proof fn lemma_page_step_needs_candidates(
    steps: Vec<PlanStepKind>,
    next: usize,
    has_candidates: bool,
    count: usize,
    selected: bool,
)
    requires
        next < steps.len(),
        steps@[next as int] == PlanStepKind::PageContent,
    ensures
        plan_transition(PlanState::Running { steps, next, has_candidates }, PlanEvent::Continue).1 == (if has_candidates {
            PlanAction::RunPageStep { step: next }
        } else {
            PlanAction::CollectCandidates { step: next }
        }),
        plan_transition(PlanState::AwaitingCandidates { steps, next, refill: true }, PlanEvent::Candidates(count)).1
            == (if count > 0 {
            PlanAction::RunPageStep { step: next }
        } else {
            PlanAction::SkipNoSlices { step: next }
        }),
        count == 0 ==> plan_transition(PlanState::AwaitingCandidates { steps, next, refill: true }, PlanEvent::Candidates(count)).0
            == (PlanState::Running { steps: steps, next: (next + 1) as usize, has_candidates: false }),
        !selected ==> plan_transition(PlanState::AwaitingPage { steps, next }, PlanEvent::PageOutcome(selected)).0
            == (PlanState::Running { steps: steps, next: (next + 1) as usize, has_candidates: true }),
{
}

/// What starting the next step does: past the last step the run finishes
/// with nothing selected; a document step asks for candidates (dropping any
/// at hand only once they come back); a structure step is skipped, keeping
/// the candidates; a page step runs on the candidates at hand or asks for
/// new ones first.
pub proof fn lemma_step_dispatch(steps: Vec<PlanStepKind>, next: usize, has_candidates: bool)
    requires
        next <= steps.len(),
    ensures
        ({
            let (st, act) = plan_transition(PlanState::Running { steps: steps, next: next, has_candidates: has_candidates }, PlanEvent::Continue);
            &&& next == steps.len() ==> st == (PlanState::Finished { selected: false }) && act == (PlanAction::Finish { selected: false })
            &&& next < steps.len() && steps@[next as int] == PlanStepKind::RecentDocuments ==> act == (PlanAction::CollectCandidates { step: next })
                && st == (PlanState::AwaitingCandidates { steps: steps, next: next, refill: false })
            &&& next < steps.len() && steps@[next as int] == PlanStepKind::DocumentStructure ==> act == (PlanAction::SkipStructure { step: next })
                && st == (PlanState::Running { steps: steps, next: (next + 1) as usize, has_candidates: has_candidates })
            &&& next < steps.len() && steps@[next as int] == PlanStepKind::PageContent && !has_candidates ==> st
                == (PlanState::AwaitingCandidates { steps: steps, next: next, refill: true })
            &&& next < steps.len() && steps@[next as int] == PlanStepKind::PageContent && has_candidates ==> st
                == (PlanState::AwaitingPage { steps: steps, next: next })
        }),
{
}

/// A refill that finds candidates runs the page step on them.
pub proof fn lemma_refill_runs_page(steps: Vec<PlanStepKind>, next: usize, count: usize)
    requires
        count > 0,
    ensures
        plan_transition(PlanState::AwaitingCandidates { steps: steps, next: next, refill: true }, PlanEvent::Candidates(count))
            == (PlanState::AwaitingPage { steps: steps, next: next }, PlanAction::RunPageStep { step: next }),
{
}

/// A page step that selects a slice ends the run: no later step is started.
pub proof fn lemma_selection_stops(steps: Vec<PlanStepKind>, next: usize)
    ensures
        plan_transition(PlanState::AwaitingPage { steps, next }, PlanEvent::PageOutcome(true))
            == (PlanState::Finished { selected: true }, PlanAction::Finish { selected: true }),
{
}

} // verus!
