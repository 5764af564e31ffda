//! Wiki browsing API: page listings, the link graph around a page, build
//! progress, and the shapes of requests and responses.
use vstd::prelude::*;

use crate::api::error::{is_bad_request, ApiError};
use crate::text::{strs, chars_lt, chars_of, decimal_int, extend_str, lex_lt, push_i64, str_eq, string_from_chars};

verus! {

/// A wiki page as listed, without its body.
#[derive(Debug, Clone)]
pub struct WikiPageItem {
    pub id: i64,
    pub kb_id: i64,
    pub slug: String,
    pub title: String,
    pub page_type: String,
    pub status: String,
    pub summary: String,
    pub aliases: Vec<String>,
    pub out_links: Vec<String>,
    pub in_links: Vec<String>,
    pub version: i64,
    pub last_edit_source: String,
    pub created_at: i64,
    pub updated_at: i64,
}

/// A file a page was generated from.
#[derive(Debug, Clone)]
pub struct WikiPageSource {
    pub file_id: i64,
    pub filename: String,
}

/// A slice cited by a page, with the file under which users see it.
#[derive(Debug, Clone)]
pub struct WikiSliceRef {
    pub slice_id: i64,
    pub file_id: i64,
}

/// A page with its body, sources and cited slices.
#[derive(Debug, Clone)]
pub struct WikiPageDetail {
    pub page: WikiPageItem,
    pub content: String,
    pub sources: Vec<WikiPageSource>,
    pub slices: Vec<WikiSliceRef>,
}

/// Filters and cursor of a page listing.
#[derive(Debug, Default)]
pub struct WikiPageListParams {
    pub kb_id: i64,
    pub page_type: Option<String>,
    pub status: Option<String>,
    pub limit: Option<i64>,
    pub before_id: Option<i64>,
}

/// A page by knowledge base and slug.
#[derive(Debug, Default)]
pub struct WikiPageParams {
    pub kb_id: i64,
    pub slug: String,
}

/// A knowledge base.
#[derive(Debug, Default)]
pub struct WikiKbParams {
    pub kb_id: i64,
}

/// A page search.
#[derive(Debug, Default)]
pub struct WikiSearchParams {
    pub kb_id: i64,
    pub q: String,
    pub limit: Option<i64>,
}

/// A page of listed pages and the cursor of the next one.
#[derive(Debug, Clone)]
pub struct WikiPageListResponse {
    pub items: Vec<WikiPageItem>,
    pub next_before_id: Option<i64>,
}

/// Index entries of one page type.
#[derive(Debug, Clone)]
pub struct WikiIndexGroup {
    pub page_type: String,
    pub title: String,
    pub count: usize,
    pub items: Vec<WikiIndexEntry>,
}

/// One index entry.
#[derive(Debug, Clone)]
pub struct WikiIndexEntry {
    pub slug: String,
    pub title: String,
    pub summary: String,
}

/// The structured index of a knowledge base's wiki.
#[derive(Debug, Clone)]
pub struct WikiIndexResponse {
    pub kb_id: i64,
    pub intro: String,
    pub groups: Vec<WikiIndexGroup>,
    pub updated_at: i64,
}

/// A page as a node of the link graph.
#[derive(Debug, Clone)]
pub struct WikiGraphNode {
    pub slug: String,
    pub title: String,
    pub page_type: String,
    pub summary: String,
}

/// A link between two pages.
#[derive(Debug, Clone)]
pub struct WikiGraphEdge {
    pub source: String,
    pub target: String,
}

/// The link graph, or part of it.
#[derive(Debug, Clone)]
pub struct WikiGraphResponse {
    pub nodes: Vec<WikiGraphNode>,
    pub edges: Vec<WikiGraphEdge>,
    pub truncated: bool,
}

/// Parameters of the link graph: around a center page, or an overview.
#[derive(Debug, Default)]
pub struct WikiGraphParams {
    pub kb_id: i64,
    pub center: Option<String>,
    pub depth: Option<i64>,
    pub limit: Option<i64>,
}

/// Builds by status.
#[derive(Debug, Clone)]
pub struct WikiBuildBreakdown {
    pub completed: i64,
    pub running: i64,
    pub failed: i64,
}

/// Progress of wiki generation.
#[derive(Debug, Clone)]
pub struct WikiStatusResponse {
    pub kb_id: i64,
    pub enabled: bool,
    pub pending_tasks: i64,
    pub page_count: i64,
    pub builds: WikiBuildBreakdown,
    pub last_error: String,
}

/// The wiki settings in effect for a knowledge base.
#[derive(Debug, Clone)]
pub struct WikiConfigResponse {
    pub kb_id: i64,
    pub enabled: bool,
    pub granularity: String,
    pub language: String,
    pub model: Option<String>,
    pub max_pages_per_ingest: usize,
    pub llm_available: bool,
}

/// Changes to a knowledge base's wiki settings.
#[derive(Debug)]
pub struct WikiConfigUpdateReq {
    pub kb_id: i64,
    pub enabled: Option<bool>,
    pub granularity: Option<String>,
    pub language: Option<String>,
    pub model: Option<String>,
    pub max_pages_per_ingest: Option<usize>,
}

/// A rebuild of a knowledge base's wiki, or of one file's part.
#[derive(Debug)]
pub struct WikiRebuildReq {
    pub kb_id: i64,
    pub file_id: Option<i64>,
}

/// How many rebuild tasks were queued.
#[derive(Debug)]
pub struct WikiRebuildResponse {
    pub enqueued: i64,
}

/// A manual edit of a page; omitted fields keep their value.
#[derive(Debug)]
pub struct WikiPageUpdateReq {
    pub kb_id: i64,
    pub slug: String,
    pub title: Option<String>,
    pub summary: Option<String>,
    pub content: Option<String>,
    pub aliases: Option<Vec<String>>,
    pub status: Option<String>,
}

/// A manually created page.
#[derive(Debug)]
pub struct WikiPageCreateReq {
    pub kb_id: i64,
    pub title: String,
    pub page_type: Option<String>,
    pub slug: Option<String>,
    pub summary: Option<String>,
    pub content: Option<String>,
    pub aliases: Option<Vec<String>>,
    pub status: Option<String>,
}

/// A page to delete.
#[derive(Debug)]
pub struct WikiPageDeleteReq {
    pub kb_id: i64,
    pub slug: String,
}

/// A page to roll back to an earlier version.
#[derive(Debug)]
pub struct WikiRevertReq {
    pub kb_id: i64,
    pub slug: String,
    pub version: i64,
}

/// A page's revisions.
#[derive(Debug, Default)]
pub struct WikiRevisionListParams {
    pub kb_id: i64,
    pub slug: String,
    pub limit: Option<i64>,
}

/// One revision of a page.
#[derive(Debug, Default)]
pub struct WikiRevisionParams {
    pub kb_id: i64,
    pub slug: String,
    pub version: i64,
}

/// A link rebuild of a knowledge base.
#[derive(Debug)]
pub struct WikiRebuildLinksReq {
    pub kb_id: i64,
}

/// What a link rebuild changed.
#[derive(Debug)]
pub struct WikiRebuildLinksResponse {
    pub kb_id: i64,
    pub pages_scanned: usize,
    pub pages_changed: usize,
    pub dead_links_removed: usize,
    pub index_updated: bool,
}

/// The limit asked for, or `default`; outside 1..=max it is refused.
pub open spec fn bounded_limit_spec(value: Option<i64>, default: i64, max: i64) -> Option<i64> {
    match value {
        None => Some(default),
        Some(l) => if 1 <= l <= max { Some(l) } else { None },
    }
}

/// The message for a limit outside 1..=max.
pub open spec fn limit_message(max: i64) -> Seq<char> {
    "limit must be between 1 and "@ + decimal_int(max as int)
}

/// A page size within bounds.
pub fn bounded_limit(value: Option<i64>, default: i64, max: i64) -> (r: Result<i64, ApiError>)
    ensures
        match r {
            Ok(l) => bounded_limit_spec(value, default, max) == Some(l),
            Err(e) => bounded_limit_spec(value, default, max) is None && is_bad_request(e, limit_message(max)),
        },
{
    match value {
        None => Ok(default),
        Some(l) => {
            if 1 <= l && l <= max {
                Ok(l)
            } else {
                let mut msg: Vec<char> = Vec::new();
                extend_str(&mut msg, "limit must be between 1 and ");
                push_i64(max, &mut msg);
                Err(ApiError::BadRequest(string_from_chars(msg.as_slice())))
            }
        },
    }
}

/// A listing fetches one page more than it shows: with `fetched` ids (in
/// listing order) and a page size `limit`, the first `limit` are shown and,
/// when more were fetched, the last shown id is the next cursor.
pub fn page_cursor(fetched: &Vec<i64>, limit: usize) -> (r: (usize, Option<i64>))
    ensures
        r.0 == if fetched@.len() < limit { fetched@.len() as usize } else { limit },
        r.1 == if fetched@.len() > limit && limit > 0 { Some(fetched@[limit - 1]) } else { None::<i64> },
{
    let shown = if fetched.len() < limit { fetched.len() } else { limit };
    let next = if fetched.len() > limit && limit > 0 { Some(fetched[limit - 1]) } else { None };
    (shown, next)
}

/// Builds counted by status: completed, running and failed; other statuses
/// are ignored and a later row for a status replaces an earlier one.
pub open spec fn breakdown_of(rows: Seq<(Seq<char>, i64)>) -> (i64, i64, i64)
    decreases rows.len(),
{
    if rows.len() == 0 {
        (0, 0, 0)
    } else {
        let (c, r, f) = breakdown_of(rows.drop_last());
        let (s, n) = rows.last();
        if s == "completed"@ {
            (n, r, f)
        } else if s == "running"@ {
            (c, n, f)
        } else if s == "failed"@ {
            (c, r, n)
        } else {
            (c, r, f)
        }
    }
}

/// The build breakdown from grouped `(status, count)` rows.
pub fn build_breakdown(rows: &Vec<(String, i64)>) -> (b: WikiBuildBreakdown)
    ensures
        (b.completed, b.running, b.failed) == breakdown_of(rows@.map_values(|r: (String, i64)| (r.0@, r.1))),
{
    proof {
        reveal_strlit("completed");
        reveal_strlit("running");
        reveal_strlit("failed");
    }
    let ghost rv = rows@.map_values(|r: (String, i64)| (r.0@, r.1));
    let mut b = WikiBuildBreakdown { completed: 0, running: 0, failed: 0 };
    let mut i: usize = 0;
    while i < rows.len()
        invariant
            i <= rows@.len() == rv.len(),
            rv == rows@.map_values(|r: (String, i64)| (r.0@, r.1)),
            (b.completed, b.running, b.failed) == breakdown_of(rv.take(i as int)),
        decreases rows.len() - i,
    {
        assert(rv.take(i + 1).drop_last() =~= rv.take(i as int));
        assert(rv.take(i + 1).last() == (rows@[i as int].0@, rows@[i as int].1));
        let s = rows[i].0.as_str();
        let n = rows[i].1;
        if str_eq(s, "completed") {
            b.completed = n;
        } else if str_eq(s, "running") {
            b.running = n;
        } else if str_eq(s, "failed") {
            b.failed = n;
        }
        i = i + 1;
    }
    assert(rv.take(rows@.len() as int) =~= rv);
    b
}

/// Some page has slug `s`.
pub open spec fn has_page(pages: Seq<WikiPageItem>, s: Seq<char>) -> bool {
    exists|i: int| 0 <= i < pages.len() && #[trigger] pages[i].slug@ == s
}

/// The page that slug `s` names: the last one listed with it.
pub open spec fn page_index(pages: Seq<WikiPageItem>, s: Seq<char>) -> int {
    choose|i: int| 0 <= i < pages.len() && #[trigger] pages[i].slug@ == s
        && forall|j: int| i < j < pages.len() ==> #[trigger] pages[j].slug@ != s
}

/// The pages a page links to or is linked from.
pub open spec fn links_of(p: WikiPageItem) -> Seq<Seq<char>> {
    strs(p.out_links@) + strs(p.in_links@)
}

/// The existing pages one link away from the page with slug `s`.
pub open spec fn wiki_neighbor(pages: Seq<WikiPageItem>, s: Seq<char>, n: Seq<char>) -> bool {
    has_page(pages, s) && links_of(pages[page_index(pages, s)]).contains(n) && has_page(pages, n)
}

/// The pages at most `k` links away from `center`, links followed in both
/// directions.
pub open spec fn ego(pages: Seq<WikiPageItem>, center: Seq<char>, k: nat) -> Set<Seq<char>>
    decreases k,
{
    if k == 0 {
        set![center]
    } else {
        let prev = ego(pages, center, (k - 1) as nat);
        prev.union(Set::new(|n: Seq<char>| exists|p: Seq<char>| prev.contains(p) && #[trigger] wiki_neighbor(pages, p, n)))
    }
}

/// The last page with slug `s`, if any.
fn find_page(pages: &Vec<WikiPageItem>, s: &str) -> (r: Option<usize>)
    ensures
        match r {
            Some(i) => has_page(pages@, s@) && i == page_index(pages@, s@) && i < pages@.len()
                && pages@[i as int].slug@ == s@,
            None => !has_page(pages@, s@),
        },
{
    let mut i: usize = pages.len();
    while i > 0
        invariant
            i <= pages@.len(),
            forall|j: int| i <= j < pages@.len() ==> #[trigger] pages@[j].slug@ != s@,
        decreases i,
    {
        i = i - 1;
        if str_eq(pages[i].slug.as_str(), s) {
            proof {
                let w = page_index(pages@, s@);
                assert(pages@[i as int].slug@ == s@);
                if w != i {
                    if w < i {
                        assert(pages@[i as int].slug@ != s@);
                    } else {
                        assert(pages@[w].slug@ != s@);
                    }
                }
            }
            return Some(i);
        }
    }
    None
}

fn contains_str(v: &Vec<String>, s: &str) -> (b: bool)
    ensures
        b == strs(v@).contains(s@),
{
    let mut i: usize = 0;
    while i < v.len()
        invariant
            i <= v@.len(),
            forall|j: int| 0 <= j < i ==> #[trigger] v@[j]@ != s@,
        decreases v.len() - i,
    {
        if str_eq(v[i].as_str(), s) {
            assert(strs(v@)[i as int] == s@);
            return true;
        }
        i = i + 1;
    }
    assert forall|j: int| 0 <= j < strs(v@).len() implies strs(v@)[j] != s@ by {
        assert(v@[j]@ != s@);
    }
    false
}

/// Adds to `visited` each existing page among `links` not yet in it.
fn visit_links(pages: &Vec<WikiPageItem>, links: &Vec<String>, visited: &mut Vec<String>)
    requires
        forall|a: int, b: int| 0 <= a < b < old(visited)@.len() ==> #[trigger] old(visited)@[a]@ != #[trigger] old(visited)@[b]@,
    ensures
        final(visited)@.len() >= old(visited)@.len(),
        final(visited)@.take(old(visited)@.len() as int) == old(visited)@,
        forall|a: int, b: int| 0 <= a < b < final(visited)@.len() ==> #[trigger] final(visited)@[a]@ != #[trigger] final(visited)@[b]@,
        forall|x: Seq<char>| #[trigger] strs(final(visited)@).contains(x) <==> (strs(old(visited)@).contains(x)
            || (strs(links@).contains(x) && has_page(pages@, x))),
{
    let ghost start = visited@;
    let mut j: usize = 0;
    assert(strs(links@.take(0)) =~= Seq::<Seq<char>>::empty());
    assert(visited@.take(start.len() as int) =~= start);
    while j < links.len()
        invariant
            j <= links@.len(),
            visited@.len() >= start.len(),
            visited@.take(start.len() as int) == start,
            forall|a: int, b: int| 0 <= a < b < visited@.len() ==> #[trigger] visited@[a]@ != #[trigger] visited@[b]@,
            forall|x: Seq<char>| #[trigger] strs(visited@).contains(x) <==> (strs(start).contains(x)
                || (strs(links@.take(j as int)).contains(x) && has_page(pages@, x))),
        decreases links.len() - j,
    {
        let l = links[j].as_str();
        let ghost before = visited@;
        let present = find_page(pages, l).is_some();
        let seen = contains_str(visited, l);
        if present && !seen {
            visited.push(links[j].clone());
            proof {
                assert(visited@.take(start.len() as int) =~= before.take(start.len() as int));
                assert forall|a: int, b: int| 0 <= a < b < visited@.len() implies #[trigger] visited@[a]@ != #[trigger] visited@[b]@ by {
                    if b == visited@.len() - 1 {
                        assert(strs(before)[a] == visited@[a]@);
                    }
                }
                assert(strs(visited@) =~= strs(before).push(l@));
            }
        } else {
            assert(strs(visited@) =~= strs(before));
        }
        proof {
            assert(strs(links@.take(j + 1)) =~= strs(links@.take(j as int)).push(l@));
            assert forall|x: Seq<char>| strs(visited@).contains(x) <==> (strs(start).contains(x)
                || (strs(links@.take(j + 1)).contains(x) && has_page(pages@, x))) by {
                vstd::seq_lib::lemma_seq_contains_after_push(strs(links@.take(j as int)), l@, x);
                vstd::seq_lib::lemma_seq_contains_after_push(strs(before), l@, x);
            }
        }
        j = j + 1;
    }
    assert(links@.take(links@.len() as int) =~= links@);
}

/// Some of the first `t` listed pages has `x` as a neighbor.
pub open spec fn reached(pages: Seq<WikiPageItem>, listed: Seq<String>, t: int, x: Seq<char>) -> bool {
    exists|u: int| 0 <= u < t && #[trigger] wiki_neighbor(pages, listed[u]@, x)
}

proof fn lemma_reached_step(pages: Seq<WikiPageItem>, listed: Seq<String>, t: int, x: Seq<char>)
    requires
        0 <= t < listed.len(),
    ensures
        reached(pages, listed, t + 1, x) <==> (reached(pages, listed, t, x) || wiki_neighbor(pages, listed[t]@, x)),
{
    if reached(pages, listed, t + 1, x) {
        let u = choose|u: int| 0 <= u < t + 1 && #[trigger] wiki_neighbor(pages, listed[u]@, x);
        if u < t {
            assert(reached(pages, listed, t, x));
        }
    }
}

proof fn lemma_links_contains(p: WikiPageItem, x: Seq<char>)
    ensures
        links_of(p).contains(x) <==> (strs(p.out_links@).contains(x) || strs(p.in_links@).contains(x)),
{
    let a = strs(p.out_links@);
    let b = strs(p.in_links@);
    if (a + b).contains(x) {
        let k = choose|k: int| 0 <= k < (a + b).len() && #[trigger] (a + b)[k] == x;
        if k < a.len() {
            assert(a[k] == x);
        } else {
            assert(b[k - a.len()] == x);
        }
    }
    if a.contains(x) {
        let k = choose|k: int| 0 <= k < a.len() && #[trigger] a[k] == x;
        assert((a + b)[k] == x);
    }
    if b.contains(x) {
        let k = choose|k: int| 0 <= k < b.len() && #[trigger] b[k] == x;
        assert((a + b)[a.len() + k] == x);
    }
}

proof fn lemma_ego_next_at(pages: Seq<WikiPageItem>, center: Seq<char>, level: nat, listed: Seq<String>, x: Seq<char>)
    requires
        forall|y: Seq<char>| strs(listed).contains(y) <==> ego(pages, center, level).contains(y),
    ensures
        ego(pages, center, level + 1).contains(x) <==>
            (ego(pages, center, level).contains(x) || reached(pages, listed, listed.len() as int, x)),
{
    let prev = ego(pages, center, level);
    let grown = Set::new(|n: Seq<char>| exists|p: Seq<char>| prev.contains(p) && #[trigger] wiki_neighbor(pages, p, n));
    assert(ego(pages, center, level + 1) == prev.union(grown));
    if reached(pages, listed, listed.len() as int, x) {
        let u = choose|u: int| 0 <= u < listed.len() && #[trigger] wiki_neighbor(pages, listed[u]@, x);
        assert(strs(listed)[u] == listed[u]@);
        assert(strs(listed).contains(listed[u]@));
        assert(prev.contains(listed[u]@));
        assert(grown.contains(x));
    }
    if grown.contains(x) {
        let p = choose|p: Seq<char>| prev.contains(p) && #[trigger] wiki_neighbor(pages, p, x);
        assert(strs(listed).contains(p));
        let u = choose|u: int| 0 <= u < strs(listed).len() && #[trigger] strs(listed)[u] == p;
        assert(wiki_neighbor(pages, listed[u]@, x));
        assert(reached(pages, listed, listed.len() as int, x));
    }
}

/// The pages within `depth` links of `center` (itself included), each once.
pub fn ego_slugs(center: &str, depth: usize, pages: &Vec<WikiPageItem>) -> (r: Vec<String>)
    ensures
        forall|a: int, b: int| 0 <= a < b < r@.len() ==> #[trigger] r@[a]@ != #[trigger] r@[b]@,
        forall|x: Seq<char>| strs(r@).contains(x) <==> ego(pages@, center@, depth as nat).contains(x),
{
    let mut visited: Vec<String> = Vec::new();
    visited.push(crate::text::owned(center));
    proof {
        assert(strs(visited@) =~= seq![center@]);
        assert forall|x: Seq<char>| strs(visited@).contains(x) <==> ego(pages@, center@, 0).contains(x) by {
            if strs(visited@).contains(x) {
                assert(strs(visited@)[0] == x);
            }
            if x == center@ {
                assert(strs(visited@)[0] == x);
            }
        }
    }
    let mut level: usize = 0;
    while level < depth
        invariant
            level <= depth,
            forall|a: int, b: int| 0 <= a < b < visited@.len() ==> #[trigger] visited@[a]@ != #[trigger] visited@[b]@,
            forall|x: Seq<char>| #[trigger] strs(visited@).contains(x) <==> ego(pages@, center@, level as nat).contains(x),
        decreases depth - level,
    {
        let ghost prev = ego(pages@, center@, level as nat);
        let ghost snapshot = visited@;
        let count = visited.len();
        let mut t: usize = 0;
        while t < count
            invariant
                t <= count == snapshot.len(),
                prev == ego(pages@, center@, level as nat),
                visited@.len() >= count,
                visited@.take(count as int) == snapshot,
                forall|a: int, b: int| 0 <= a < b < visited@.len() ==> #[trigger] visited@[a]@ != #[trigger] visited@[b]@,
                forall|x: Seq<char>| #[trigger] strs(visited@).contains(x) <==> (prev.contains(x) || reached(pages@, snapshot, t as int, x)),
            decreases count - t,
        {
            let ghost before = visited@;
            assert(visited@[t as int] == snapshot[t as int]) by {
                assert(visited@.take(count as int)[t as int] == visited@[t as int]);
            }
            let s = visited[t].clone();
            assert(s@ == snapshot[t as int]@);
            match find_page(pages, s.as_str()) {
                Some(pi) => {
                    let ghost p = pages@[pi as int];
                    assert(pi == page_index(pages@, snapshot[t as int]@));
                    let ghost mid_before = visited@;
                    visit_links(pages, &pages[pi].out_links, &mut visited);
                    let ghost mid = visited@;
                    visit_links(pages, &pages[pi].in_links, &mut visited);
                    proof {
                        assert(visited@.take(count as int) =~= snapshot) by {
                            assert(mid.take(before.len() as int) == before);
                            assert(visited@.take(mid.len() as int) == mid);
                            assert forall|k: int| 0 <= k < count implies visited@[k] == snapshot[k] by {
                                assert(visited@.take(mid.len() as int)[k] == mid[k]);
                                assert(mid.take(before.len() as int)[k] == before[k]);
                                assert(before.take(count as int)[k] == before[k]);
                            }
                        }
                        assert forall|x: Seq<char>| strs(visited@).contains(x) <==> (prev.contains(x) || reached(pages@, snapshot, t + 1, x)) by {
                            lemma_reached_step(pages@, snapshot, t as int, x);
                            lemma_links_contains(p, x);
                            assert(strs(before).contains(x) <==> (prev.contains(x) || reached(pages@, snapshot, t as int, x)));
                            assert(strs(mid).contains(x) <==> (strs(before).contains(x) || (strs(p.out_links@).contains(x) && has_page(pages@, x))));
                        }
                    }
                },
                None => {
                    proof {
                        assert(!has_page(pages@, snapshot[t as int]@));
                        assert forall|x: Seq<char>| strs(visited@).contains(x) <==> (prev.contains(x) || reached(pages@, snapshot, t + 1, x)) by {
                            lemma_reached_step(pages@, snapshot, t as int, x);
                            assert(!wiki_neighbor(pages@, snapshot[t as int]@, x));
                            assert(visited@ == before);
                        }
                    }
                },
            }
            t = t + 1;
        }
        proof {
            assert forall|x: Seq<char>| strs(visited@).contains(x) <==> ego(pages@, center@, (level + 1) as nat).contains(x) by {
                lemma_ego_next_at(pages@, center@, level as nat, snapshot, x);
            }
        }
        level = level + 1;
    }
    visited
}


/// The center page is always part of its neighborhood, and a larger depth
/// never loses a page.
pub proof fn lemma_ego_grows(pages: Seq<WikiPageItem>, center: Seq<char>, k: nat, x: Seq<char>)
    ensures
        ego(pages, center, k).contains(center),
        ego(pages, center, k).contains(x) ==> ego(pages, center, k + 1).contains(x),
    decreases k,
{
    if k > 0 {
        lemma_ego_grows(pages, center, (k - 1) as nat, x);
    }
}

/// Every page in a neighborhood of depth `k + 1` beyond depth `k` is linked
/// with a page of depth `k` and exists.
pub proof fn lemma_ego_step_linked(pages: Seq<WikiPageItem>, center: Seq<char>, k: nat, x: Seq<char>)
    requires
        ego(pages, center, k + 1).contains(x),
        !ego(pages, center, k).contains(x),
    ensures
        has_page(pages, x),
        exists|p: Seq<char>| ego(pages, center, k).contains(p) && #[trigger] wiki_neighbor(pages, p, x),
{
    let prev = ego(pages, center, k);
    let grown = Set::new(|n: Seq<char>| exists|p: Seq<char>| prev.contains(p) && #[trigger] wiki_neighbor(pages, p, n));
    assert(ego(pages, center, k + 1) == prev.union(grown));
    assert(grown.contains(x));
}


/// Page type of the index page.
pub const PAGE_TYPE_INDEX: &'static str = "index";

/// Page type of entity pages.
pub const PAGE_TYPE_ENTITY: &'static str = "entity";

/// Page type of concept pages.
pub const PAGE_TYPE_CONCEPT: &'static str = "concept";

/// Page type of document summaries.
pub const PAGE_TYPE_SUMMARY: &'static str = "summary";

/// Index entries are ordered by title, then by slug.
pub open spec fn entry_lt(a: WikiPageItem, b: WikiPageItem) -> bool {
    lex_lt(a.title@, b.title@) || (a.title@ == b.title@ && lex_lt(a.slug@, b.slug@))
}

/// Where a page goes among pages ordered for the index: after every page
/// that does not come after it.
pub open spec fn entry_position(pages: Seq<WikiPageItem>, sorted: Seq<int>, i: int) -> int
    decreases sorted.len(),
{
    if sorted.len() == 0 {
        0
    } else if entry_lt(pages[i], pages[sorted.last()]) {
        entry_position(pages, sorted.drop_last(), i)
    } else {
        sorted.len() as int
    }
}

/// The pages of type `page_type` among the first `k`, by position, in
/// index order (equal title and slug keep their listing order).
pub open spec fn index_entries(pages: Seq<WikiPageItem>, page_type: Seq<char>, k: int) -> Seq<int>
    decreases k,
{
    if k <= 0 || k > pages.len() {
        seq![]
    } else {
        let prev = index_entries(pages, page_type, k - 1);
        if pages[k - 1].page_type@ == page_type {
            prev.insert(entry_position(pages, prev, k - 1), k - 1)
        } else {
            prev
        }
    }
}

fn entry_before(pages: &Vec<WikiPageItem>, a: usize, b: usize) -> (r: bool)
    requires
        a < pages@.len(),
        b < pages@.len(),
    ensures
        r == entry_lt(pages@[a as int], pages@[b as int]),
{
    let ta = chars_of(pages[a].title.as_str());
    let tb = chars_of(pages[b].title.as_str());
    if chars_lt(ta.as_slice(), tb.as_slice()) {
        return true;
    }
    if !crate::text::chars_eq(ta.as_slice(), tb.as_slice()) {
        return false;
    }
    let sa = chars_of(pages[a].slug.as_str());
    let sb = chars_of(pages[b].slug.as_str());
    chars_lt(sa.as_slice(), sb.as_slice())
}

proof fn lemma_index_entries_bound(pages: Seq<WikiPageItem>, page_type: Seq<char>, k: int)
    ensures
        forall|j: int| 0 <= j < index_entries(pages, page_type, k).len() ==> 0 <= #[trigger] index_entries(pages, page_type, k)[j] < pages.len(),
        index_entries(pages, page_type, k).len() <= if k < 0 { 0 } else { k },
    decreases k,
{
    if 0 < k <= pages.len() {
        lemma_index_entries_bound(pages, page_type, k - 1);
        let prev = index_entries(pages, page_type, k - 1);
        if pages[k - 1].page_type@ == page_type {
            lemma_entry_position_bound(pages, prev, k - 1);
            let p = entry_position(pages, prev, k - 1);
            let ins = prev.insert(p, k - 1);
            assert forall|j: int| 0 <= j < ins.len() implies 0 <= #[trigger] ins[j] < pages.len() by {
                if j < p {
                    assert(ins[j] == prev[j]);
                } else if j > p {
                    assert(ins[j] == prev[j - 1]);
                }
            }
        }
    }
}

proof fn lemma_entry_position_bound(pages: Seq<WikiPageItem>, sorted: Seq<int>, i: int)
    ensures
        0 <= entry_position(pages, sorted, i) <= sorted.len(),
    decreases sorted.len(),
{
    if sorted.len() > 0 {
        lemma_entry_position_bound(pages, sorted.drop_last(), i);
    }
}

/// The positions of the pages of one type, in index order.
pub fn index_entry_positions(pages: &Vec<WikiPageItem>, page_type: &str) -> (r: Vec<usize>)
    ensures
        r@.map_values(|x: usize| x as int) == index_entries(pages@, page_type@, pages@.len() as int),
{
    let mut out: Vec<usize> = Vec::new();
    let mut k: usize = 0;
    while k < pages.len()
        invariant
            k <= pages@.len(),
            out@.map_values(|x: usize| x as int) == index_entries(pages@, page_type@, k as int),
        decreases pages.len() - k,
    {
        proof {
            lemma_index_entries_bound(pages@, page_type@, k as int);
        }
        if str_eq(pages[k].page_type.as_str(), page_type) {
            let ghost ov = out@.map_values(|x: usize| x as int);
            let mut p: usize = out.len();
            assert(ov.take(ov.len() as int) =~= ov);
            while p > 0 && entry_before(pages, k, out[p - 1])
                invariant
                    p <= out@.len(),
                    k < pages@.len(),
                    ov == out@.map_values(|x: usize| x as int),
                    forall|j: int| 0 <= j < ov.len() ==> 0 <= #[trigger] ov[j] < pages@.len(),
                    entry_position(pages@, ov, k as int) == entry_position(pages@, ov.take(p as int), k as int),
                decreases p,
            {
                assert(ov[p - 1] == out@[p - 1] as int);
                assert(ov.take(p as int).drop_last() =~= ov.take(p - 1));
                p = p - 1;
            }
            proof {
                let t = ov.take(p as int);
                if p > 0 {
                    assert(t.last() == ov[p - 1]);
                    assert(ov[p - 1] == out@[p - 1] as int);
                }
                assert(entry_position(pages@, t, k as int) == p);
            }
            out.insert(p, k);
            proof {
                assert(out@.map_values(|x: usize| x as int) =~= ov.insert(p as int, k as int));
            }
        }
        k = k + 1;
    }
    out
}

/// The index page: the first page of type index.
pub open spec fn index_page_of(pages: Seq<WikiPageItem>) -> Option<int> {
    if exists|i: int| 0 <= i < pages.len() && pages[i].page_type@ == PAGE_TYPE_INDEX@ {
        Some(choose|i: int| 0 <= i < pages.len() && pages[i].page_type@ == PAGE_TYPE_INDEX@
            && forall|j: int| 0 <= j < i ==> pages[j].page_type@ != PAGE_TYPE_INDEX@)
    } else {
        None
    }
}

/// The introduction and time of the index: the index page's summary and
/// update time, or nothing and 0.
pub fn index_intro(pages: &Vec<WikiPageItem>) -> (r: (String, i64))
    ensures
        match index_page_of(pages@) {
            Some(i) => r.0@ == pages@[i].summary@ && r.1 == pages@[i].updated_at,
            None => r.0@.len() == 0 && r.1 == 0,
        },
{
    let mut i: usize = 0;
    while i < pages.len()
        invariant
            i <= pages@.len(),
            forall|j: int| 0 <= j < i ==> pages@[j].page_type@ != PAGE_TYPE_INDEX@,
        decreases pages.len() - i,
    {
        if str_eq(pages[i].page_type.as_str(), PAGE_TYPE_INDEX) {
            proof {
                let w = index_page_of(pages@)->0;
                if w < i {
                    assert(pages@[w].page_type@ != PAGE_TYPE_INDEX@);
                } else if w > i {
                    assert(pages@[i as int].page_type@ != PAGE_TYPE_INDEX@);
                }
            }
            return (pages[i].summary.clone(), pages[i].updated_at);
        }
        i = i + 1;
    }
    (String::new(), 0)
}


/// How many links a page has, out and in.
pub open spec fn link_count(p: WikiPageItem) -> int {
    (p.out_links@.len() + p.in_links@.len()) as int
}

/// The overview ranks pages with more links first, then by slug.
pub open spec fn rank_lt(a: WikiPageItem, b: WikiPageItem) -> bool {
    link_count(a) > link_count(b) || (link_count(a) == link_count(b) && lex_lt(a.slug@, b.slug@))
}

/// Where a page goes among ranked pages: after every page that does not
/// come after it.
pub open spec fn rank_position(pages: Seq<WikiPageItem>, sorted: Seq<int>, i: int) -> int
    decreases sorted.len(),
{
    if sorted.len() == 0 {
        0
    } else if rank_lt(pages[i], pages[sorted.last()]) {
        rank_position(pages, sorted.drop_last(), i)
    } else {
        sorted.len() as int
    }
}

/// The pages other than the index among the first `k`, by position, ranked.
pub open spec fn ranked_pages(pages: Seq<WikiPageItem>, k: int) -> Seq<int>
    decreases k,
{
    if k <= 0 || k > pages.len() {
        seq![]
    } else {
        let prev = ranked_pages(pages, k - 1);
        if pages[k - 1].page_type@ != PAGE_TYPE_INDEX@ {
            prev.insert(rank_position(pages, prev, k - 1), k - 1)
        } else {
            prev
        }
    }
}

fn rank_before(pages: &Vec<WikiPageItem>, a: usize, b: usize) -> (r: bool)
    requires
        a < pages@.len(),
        b < pages@.len(),
    ensures
        r == rank_lt(pages@[a as int], pages@[b as int]),
{
    let la = pages[a].out_links.len() as u128 + pages[a].in_links.len() as u128;
    let lb = pages[b].out_links.len() as u128 + pages[b].in_links.len() as u128;
    if la != lb {
        return la > lb;
    }
    let sa = chars_of(pages[a].slug.as_str());
    let sb = chars_of(pages[b].slug.as_str());
    chars_lt(sa.as_slice(), sb.as_slice())
}

proof fn lemma_rank_position_bound(pages: Seq<WikiPageItem>, sorted: Seq<int>, i: int)
    ensures
        0 <= rank_position(pages, sorted, i) <= sorted.len(),
    decreases sorted.len(),
{
    if sorted.len() > 0 {
        lemma_rank_position_bound(pages, sorted.drop_last(), i);
    }
}

proof fn lemma_ranked_bound(pages: Seq<WikiPageItem>, k: int)
    ensures
        forall|j: int| 0 <= j < ranked_pages(pages, k).len() ==> 0 <= #[trigger] ranked_pages(pages, k)[j] < pages.len(),
    decreases k,
{
    if 0 < k <= pages.len() {
        lemma_ranked_bound(pages, k - 1);
        let prev = ranked_pages(pages, k - 1);
        if pages[k - 1].page_type@ != PAGE_TYPE_INDEX@ {
            lemma_rank_position_bound(pages, prev, k - 1);
            let p = rank_position(pages, prev, k - 1);
            let ins = prev.insert(p, k - 1);
            assert forall|j: int| 0 <= j < ins.len() implies 0 <= #[trigger] ins[j] < pages.len() by {
                if j < p {
                    assert(ins[j] == prev[j]);
                } else if j > p {
                    assert(ins[j] == prev[j - 1]);
                }
            }
        }
    }
}

/// The pages other than the index, by position, in overview rank.
pub fn rank_pages(pages: &Vec<WikiPageItem>) -> (r: Vec<usize>)
    ensures
        r@.map_values(|x: usize| x as int) == ranked_pages(pages@, pages@.len() as int),
{
    let mut out: Vec<usize> = Vec::new();
    let mut k: usize = 0;
    while k < pages.len()
        invariant
            k <= pages@.len(),
            out@.map_values(|x: usize| x as int) == ranked_pages(pages@, k as int),
        decreases pages.len() - k,
    {
        proof {
            lemma_ranked_bound(pages@, k as int);
        }
        if !str_eq(pages[k].page_type.as_str(), PAGE_TYPE_INDEX) {
            let ghost ov = out@.map_values(|x: usize| x as int);
            let mut p: usize = out.len();
            assert(ov.take(ov.len() as int) =~= ov);
            while p > 0 && rank_before(pages, k, out[p - 1])
                invariant
                    p <= out@.len(),
                    k < pages@.len(),
                    ov == out@.map_values(|x: usize| x as int),
                    forall|j: int| 0 <= j < ov.len() ==> 0 <= #[trigger] ov[j] < pages@.len(),
                    rank_position(pages@, ov, k as int) == rank_position(pages@, ov.take(p as int), k as int),
                decreases p,
            {
                assert(ov[p - 1] == out@[p - 1] as int);
                assert(ov.take(p as int).drop_last() =~= ov.take(p - 1));
                p = p - 1;
            }
            proof {
                let t = ov.take(p as int);
                if p > 0 {
                    assert(t.last() == ov[p - 1]);
                    assert(ov[p - 1] == out@[p - 1] as int);
                }
                assert(rank_position(pages@, t, k as int) == p);
            }
            out.insert(p, k);
            proof {
                assert(out@.map_values(|x: usize| x as int) =~= ov.insert(p as int, k as int));
            }
        }
        k = k + 1;
    }
    out
}

/// The links from page `slug` to the selected slugs among `outs`, in order.
pub open spec fn kept_links(slug: Seq<char>, outs: Seq<Seq<char>>, selected: Seq<Seq<char>>) -> Seq<(Seq<char>, Seq<char>)>
    decreases outs.len(),
{
    if outs.len() == 0 {
        seq![]
    } else {
        let prev = kept_links(slug, outs.drop_last(), selected);
        if selected.contains(outs.last()) { prev.push((slug, outs.last())) } else { prev }
    }
}

/// The links drawn among selected pages: for each selected slug that names
/// a page (the last listed with it), that page's outgoing links to selected
/// slugs, in order.
pub open spec fn graph_links(pages: Seq<WikiPageItem>, selected: Seq<Seq<char>>, k: int) -> Seq<(Seq<char>, Seq<char>)>
    decreases k,
{
    if k <= 0 || k > selected.len() {
        seq![]
    } else {
        let prev = graph_links(pages, selected, k - 1);
        let s = selected[k - 1];
        if has_page(pages, s) {
            let p = pages[page_index(pages, s)];
            prev + kept_links(p.slug@, strs(p.out_links@), selected)
        } else {
            prev
        }
    }
}

/// Plain values of links.
pub open spec fn links_view(v: Seq<(String, String)>) -> Seq<(Seq<char>, Seq<char>)> {
    v.map_values(|e: (String, String)| (e.0@, e.1@))
}

fn append_kept_links(out: &mut Vec<(String, String)>, slug: &String, outs: &Vec<String>, selected: &Vec<String>)
    ensures
        links_view(final(out)@) == links_view(old(out)@) + kept_links(slug@, strs(outs@), strs(selected@)),
{
    let ghost base = links_view(out@);
    let ghost sel = strs(selected@);
    let mut m: usize = 0;
    assert(strs(outs@).take(0) =~= Seq::<Seq<char>>::empty());
    assert(base + kept_links(slug@, Seq::<Seq<char>>::empty(), sel) =~= base);
    while m < outs.len()
        invariant
            m <= outs@.len(),
            sel == strs(selected@),
            links_view(out@) == base + kept_links(slug@, strs(outs@).take(m as int), sel),
        decreases outs.len() - m,
    {
        let target = outs[m].as_str();
        assert(strs(outs@).take(m + 1).drop_last() =~= strs(outs@).take(m as int));
        assert(strs(outs@).take(m + 1).last() == target@);
        let ghost before = out@;
        if contains_str(selected, target) {
            out.push((slug.clone(), outs[m].clone()));
            assert(links_view(out@) =~= links_view(before).push((slug@, target@)));
        }
        m = m + 1;
    }
    assert(strs(outs@).take(outs@.len() as int) =~= strs(outs@));
}

/// The links among the selected pages of the link graph.
pub fn graph_edges(pages: &Vec<WikiPageItem>, selected: &Vec<String>) -> (r: Vec<(String, String)>)
    ensures
        links_view(r@) == graph_links(pages@, strs(selected@), selected@.len() as int),
{
    let ghost sel = strs(selected@);
    let mut out: Vec<(String, String)> = Vec::new();
    let mut k: usize = 0;
    while k < selected.len()
        invariant
            k <= selected@.len() == sel.len(),
            sel == strs(selected@),
            links_view(out@) == graph_links(pages@, sel, k as int),
        decreases selected.len() - k,
    {
        match find_page(pages, selected[k].as_str()) {
            Some(pi) => {
                append_kept_links(&mut out, &pages[pi].slug, &pages[pi].out_links, selected);
                assert(selected@[k as int]@ == sel[k as int]);
            },
            None => {
                assert(selected@[k as int]@ == sel[k as int]);
            },
        }
        k = k + 1;
    }
    out
}


/// The texts without repetitions, each at its first position.
pub open spec fn dedup_texts(s: Seq<Seq<char>>) -> Seq<Seq<char>>
    decreases s.len(),
{
    if s.len() == 0 {
        seq![]
    } else {
        let d = dedup_texts(s.drop_last());
        if d.contains(s.last()) { d } else { d.push(s.last()) }
    }
}

/// The slugs the overview shows: those of the `limit` best-ranked pages,
/// each once.
pub open spec fn overview_selection(pages: Seq<WikiPageItem>, limit: int) -> Seq<Seq<char>> {
    let ranked = ranked_pages(pages, pages.len() as int);
    let top = if ranked.len() > limit { ranked.take(limit) } else { ranked };
    dedup_texts(top.map_values(|i: int| pages[i].slug@))
}

/// The slugs of the overview, in rank order.
pub fn overview_slugs(pages: &Vec<WikiPageItem>, limit: usize) -> (r: Vec<String>)
    ensures
        strs(r@) == overview_selection(pages@, limit as int),
{
    let ranked = rank_pages(pages);
    let ghost rv = ranked@.map_values(|x: usize| x as int);
    proof {
        lemma_ranked_bound(pages@, pages@.len() as int);
    }
    let n = if ranked.len() > limit { limit } else { ranked.len() };
    let ghost top = if rv.len() > limit { rv.take(limit as int) } else { rv };
    let ghost names = top.map_values(|i: int| pages@[i].slug@);
    assert(names.len() == n);
    let mut out: Vec<String> = Vec::new();
    let mut k: usize = 0;
    while k < n
        invariant
            k <= n <= ranked@.len(),
            rv == ranked@.map_values(|x: usize| x as int),
            forall|j: int| 0 <= j < rv.len() ==> 0 <= #[trigger] rv[j] < pages@.len(),
            names.len() == n,
            forall|j: int| 0 <= j < n ==> #[trigger] names[j] == pages@[rv[j]].slug@,
            strs(out@) == dedup_texts(names.take(k as int)),
        decreases n - k,
    {
        let idx = ranked[k];
        assert(rv[k as int] == idx as int);
        let slug = pages[idx].slug.as_str();
        assert(names.take(k + 1).drop_last() =~= names.take(k as int));
        assert(names.take(k + 1).last() == slug@);
        if !contains_str(&out, slug) {
            let ghost before = out@;
            out.push(pages[idx].slug.clone());
            assert(strs(out@) =~= strs(before).push(slug@));
        }
        k = k + 1;
    }
    assert(names.take(n as int) =~= names);
    out
}

} // verus!
