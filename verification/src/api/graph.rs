//! Knowledge-graph API: the visible scope of a user, the SQL filters that
//! keep every query inside it, and the assembly of subgraphs.
use vstd::prelude::*;

use crate::api::error::{is_bad_request, is_forbidden, is_not_found, ApiError};
use crate::api::file::{dedup_first, lemma_dedup_first_props};
use crate::api::search::{join_ids, push_joined_ids};
use crate::text::{chars_of, decimal_int, decimal_nat, digit_char, extend_str, is_digit, push_i64, string_from_chars};

verus! {

/// A graph node as the API shows it.
#[derive(Debug, Clone)]
pub struct EntityInfo {
    pub id: i64,
    pub name: String,
    pub entity_type: String,
    pub properties: Vec<(String, String)>,
    pub file_id: Option<i64>,
    pub kb_id: Option<i64>,
    pub created_at: i64,
}

/// Filters of an entity search.
#[derive(Debug, Default)]
pub struct EntitySearchParams {
    pub q: Option<String>,
    pub entity_type: Option<String>,
    pub kb_id: Option<i64>,
    pub file_id: Option<i64>,
    pub limit: Option<i64>,
    pub before_id: Option<i64>,
    pub node_id: Option<i64>,
}

/// A node with its relations and the slices that mention it.
#[derive(Debug)]
pub struct EntityDetail {
    pub entity: EntityInfo,
    pub neighbors: Vec<NeighborInfo>,
    pub mentions: Vec<MentionInfo>,
}

/// A node related to another, with the relation and its direction.
#[derive(Debug)]
pub struct NeighborInfo {
    pub entity: EntityInfo,
    pub edge_id: i64,
    pub relation_type: String,
    pub direction: String,
}

/// A slice that mentions a node or supports a relation.
#[derive(Debug)]
pub struct MentionInfo {
    pub slice_id: i64,
    pub context: String,
    pub file_id: i64,
    pub filename: String,
}

/// A relation between two nodes.
#[derive(Debug, Clone)]
pub struct GraphEdge {
    pub id: i64,
    pub source_id: i64,
    pub target_id: i64,
    pub relation_type: String,
    pub file_id: Option<i64>,
}

/// Matched nodes, their neighborhood and the relations among them.
#[derive(Debug)]
pub struct Subgraph {
    pub nodes: Vec<EntityInfo>,
    pub edges: Vec<GraphEdge>,
    pub matched_ids: Vec<i64>,
    pub truncated: bool,
}

/// The latest graph build of a file.
#[derive(Debug)]
pub struct GraphBuildInfo {
    pub status: String,
    pub model: String,
    pub extractor_version: i64,
    pub updated_at: i64,
}

/// Node and relation counts, in total and per kind.
#[derive(Debug)]
pub struct GraphStats {
    pub build: Option<GraphBuildInfo>,
    pub node_count: i64,
    pub edge_count: i64,
    pub entity_types: Vec<(String, i64)>,
    pub relation_types: Vec<(String, i64)>,
}

/// Filters of the statistics.
#[derive(Debug)]
pub struct StatsParams {
    pub kb_id: Option<i64>,
    pub file_id: Option<i64>,
}

pub const MSG_PERMISSION_DENIED: &'static str = "Permission denied";

pub const MSG_FILE_NOT_FOUND: &'static str = "File not found";

pub const MSG_FILE_NOT_IN_KB: &'static str = "file_id does not belong to kb_id";

pub const MSG_BAD_LIMIT: &'static str = "limit must be between 1 and 200";

/// Nodes a search returns when no limit is given.
pub const DEFAULT_LIMIT: i64 = 100;

/// Most relations a subgraph holds.
pub const MAX_SUBGRAPH_EDGES: usize = 400;

/// Most nodes a subgraph holds.
pub const MAX_SUBGRAPH_NODES: usize = 200;

/// A list of ids for an SQL `IN (...)`: the ids separated by commas, or
/// `NULL` for none, which matches nothing.
pub open spec fn ids_sql_spec(ids: Seq<i64>) -> Seq<char> {
    if ids.len() == 0 {
        "NULL"@
    } else {
        join_ids(ids, ","@)
    }
}

fn push_ids_sql(out: &mut Vec<char>, ids: &[i64])
    ensures
        final(out)@ == old(out)@ + ids_sql_spec(ids@),
{
    if ids.len() == 0 {
        extend_str(out, "NULL");
        proof {
            reveal_strlit("NULL");
        }
    } else {
        push_joined_ids(out, ids, ids.len(), ",");
        assert(ids@.take(ids@.len() as int) =~= ids@);
    }
}

/// The ids as an SQL list (typed integers only, never user text).
pub fn ids_sql(ids: &[i64]) -> (s: String)
    ensures
        s@ == ids_sql_spec(ids@),
{
    let mut out: Vec<char> = Vec::new();
    push_ids_sql(&mut out, ids);
    string_from_chars(out.as_slice())
}

/// What a user may see of the graph: everything for an administrator, else
/// the knowledge bases the user can view and the files outside any
/// knowledge base that the user owns or that are public.
#[derive(Debug, Clone)]
pub struct Scope {
    pub admin: bool,
    pub kb_ids: Vec<i64>,
    pub loose_files: Vec<i64>,
}

/// The outcome of checking a request's knowledge base and file against a
/// user's scope. `file_kb` is `None` when no file is asked for, `Some(None)`
/// when the file does not exist, else `Some(Some(k))` with the file's
/// knowledge base `k` (itself `None` for a file outside any).
pub open spec fn scope_check(
    admin: bool,
    kb_ids: Seq<i64>,
    loose_files: Seq<i64>,
    kb_id: Option<i64>,
    file_id: Option<i64>,
    file_kb: Option<Option<Option<i64>>>,
) -> Result<(), (int, Seq<char>)> {
    if kb_id matches Some(k) && !admin && !kb_ids.contains(k) {
        Err((1, MSG_PERMISSION_DENIED@))
    } else {
        match (file_id, file_kb) {
            (Some(f), Some(None)) => Err((2, MSG_FILE_NOT_FOUND@)),
            (Some(f), Some(Some(fk))) => {
                if !admin && !(fk matches Some(k) && kb_ids.contains(k)) && !(fk is None && loose_files.contains(f)) {
                    Err((1, MSG_PERMISSION_DENIED@))
                } else if kb_id is Some && kb_id != fk {
                    Err((0, MSG_FILE_NOT_IN_KB@))
                } else {
                    Ok(())
                }
            },
            _ => Ok(()),
        }
    }
}

/// Whether an API error is the one a scope check gives: kind 0 a bad
/// request, 1 forbidden, 2 not found.
pub open spec fn is_scope_error(e: ApiError, err: (int, Seq<char>)) -> bool {
    if err.0 == 0 {
        is_bad_request(e, err.1)
    } else if err.0 == 1 {
        is_forbidden(e, err.1)
    } else {
        is_not_found(e, err.1)
    }
}

fn contains_id(ids: &Vec<i64>, id: i64) -> (b: bool)
    ensures
        b == ids@.contains(id),
{
    let mut i: usize = 0;
    while i < ids.len()
        invariant
            i <= ids@.len(),
            forall|j: int| 0 <= j < i ==> ids@[j] != id,
        decreases ids.len() - i,
    {
        if ids[i] == id {
            assert(ids@[i as int] == id);
            return true;
        }
        i = i + 1;
    }
    false
}

impl Scope {
    /// Builds a user's scope and checks the requested knowledge base and
    /// file against it: a knowledge base or file outside it is forbidden, a
    /// missing file is not found, and a file of another knowledge base than
    /// the one asked for is a bad request. The lists of an administrator's
    /// scope are not consulted.
    pub fn check(
        admin: bool,
        kb_ids: Vec<i64>,
        loose_files: Vec<i64>,
        kb_id: Option<i64>,
        file_id: Option<i64>,
        file_kb: Option<Option<Option<i64>>>,
    ) -> (r: Result<Scope, ApiError>)
        ensures
            match r {
                Ok(s) => scope_check(admin, kb_ids@, loose_files@, kb_id, file_id, file_kb) is Ok
                    && s.admin == admin && s.kb_ids@ == kb_ids@ && s.loose_files@ == loose_files@,
                Err(e) => scope_check(admin, kb_ids@, loose_files@, kb_id, file_id, file_kb) matches Err(err)
                    && is_scope_error(e, err),
            },
    {
        if let Some(k) = kb_id {
            if !admin && !contains_id(&kb_ids, k) {
                return Err(ApiError::forbidden(MSG_PERMISSION_DENIED));
            }
        }
        if let Some(f) = file_id {
            match file_kb {
                Some(None) => {
                    return Err(ApiError::not_found(MSG_FILE_NOT_FOUND));
                },
                Some(Some(fk)) => {
                    let in_kb = match fk {
                        Some(k) => contains_id(&kb_ids, k),
                        None => false,
                    };
                    let loose = fk.is_none() && contains_id(&loose_files, f);
                    if !admin && !in_kb && !loose {
                        return Err(ApiError::forbidden(MSG_PERMISSION_DENIED));
                    }
                    if kb_id.is_some() && kb_id != fk {
                        return Err(ApiError::bad_request(MSG_FILE_NOT_IN_KB));
                    }
                },
                None => {},
            }
        }
        Ok(Scope { admin, kb_ids, loose_files })
    }

    /// The SQL condition that keeps rows of table alias `alias` inside the
    /// scope.
    pub open spec fn nodes_spec(&self, alias: Seq<char>) -> Seq<char> {
        if self.admin {
            "1=1"@
        } else {
            seq!['('] + alias + ".kb_id IN ("@ + ids_sql_spec(self.kb_ids@) + ") OR ("@ + alias
                + ".kb_id IS NULL AND "@ + alias + ".file_id IN ("@ + ids_sql_spec(self.loose_files@) + ")))"@
        }
    }

    fn push_nodes(&self, out: &mut Vec<char>, alias: &str)
        ensures
            final(out)@ == old(out)@ + self.nodes_spec(alias@),
    {
        proof {
            reveal_strlit("1=1");
            reveal_strlit(".kb_id IN (");
            reveal_strlit(") OR (");
            reveal_strlit(".kb_id IS NULL AND ");
            reveal_strlit(".file_id IN (");
            reveal_strlit(")))");
        }
        if self.admin {
            extend_str(out, "1=1");
            return;
        }
        let ghost start = out@;
        out.push('(');
        extend_str(out, alias);
        extend_str(out, ".kb_id IN (");
        push_ids_sql(out, self.kb_ids.as_slice());
        extend_str(out, ") OR (");
        extend_str(out, alias);
        extend_str(out, ".kb_id IS NULL AND ");
        extend_str(out, alias);
        extend_str(out, ".file_id IN (");
        push_ids_sql(out, self.loose_files.as_slice());
        extend_str(out, ")))");
        assert(out@ =~= start + self.nodes_spec(alias@));
    }

    /// The scope condition for rows of table alias `alias`.
    pub fn nodes(&self, alias: &str) -> (s: String)
        ensures
            s@ == self.nodes_spec(alias@),
    {
        let mut out: Vec<char> = Vec::new();
        self.push_nodes(&mut out, alias);
        string_from_chars(out.as_slice())
    }
}

/// The SQL condition on graph nodes `n`: inside the scope, in the given
/// knowledge base, and sourced from the given file (or, for a node with no
/// recorded source, created from it).
pub open spec fn node_filter_spec(scope: Scope, kb_id: Option<i64>, file_id: Option<i64>) -> Seq<char> {
    scope.nodes_spec("n"@) + match kb_id {
        Some(id) => " AND n.kb_id="@ + decimal_int(id as int),
        None => seq![],
    } + match file_id {
        Some(id) => " AND (EXISTS(SELECT 1 FROM graph_node_sources s WHERE s.node_id=n.id AND s.file_id="@
            + decimal_int(id as int) + ") OR (n.file_id="@ + decimal_int(id as int)
            + " AND NOT EXISTS(SELECT 1 FROM graph_node_sources s WHERE s.node_id=n.id)))"@,
        None => seq![],
    }
}

/// The node filter of a scope and the requested knowledge base and file.
pub fn node_filter(scope: &Scope, kb_id: Option<i64>, file_id: Option<i64>) -> (s: String)
    ensures
        s@ == node_filter_spec(*scope, kb_id, file_id),
{
    proof {
        reveal_strlit("n");
        reveal_strlit(" AND n.kb_id=");
        reveal_strlit(" AND (EXISTS(SELECT 1 FROM graph_node_sources s WHERE s.node_id=n.id AND s.file_id=");
        reveal_strlit(") OR (n.file_id=");
        reveal_strlit(" AND NOT EXISTS(SELECT 1 FROM graph_node_sources s WHERE s.node_id=n.id)))");
    }
    let mut out: Vec<char> = Vec::new();
    scope.push_nodes(&mut out, "n");
    let ghost a = out@;
    if let Some(id) = kb_id {
        extend_str(&mut out, " AND n.kb_id=");
        push_i64(id, &mut out);
    }
    let ghost b = out@;
    if let Some(id) = file_id {
        extend_str(&mut out, " AND (EXISTS(SELECT 1 FROM graph_node_sources s WHERE s.node_id=n.id AND s.file_id=");
        push_i64(id, &mut out);
        extend_str(&mut out, ") OR (n.file_id=");
        push_i64(id, &mut out);
        extend_str(&mut out, " AND NOT EXISTS(SELECT 1 FROM graph_node_sources s WHERE s.node_id=n.id)))");
    }
    assert(out@ =~= node_filter_spec(*scope, kb_id, file_id));
    string_from_chars(out.as_slice())
}

/// The SQL condition on relations `e` from node `n` to node `t`: both ends
/// in the scope and in one knowledge base, in the given knowledge base and
/// file, a file-specific relation only from a file of that knowledge base,
/// and, outside administration, relations between loose files only within
/// one visible file.
pub open spec fn edge_filter_spec(scope: Scope, kb_id: Option<i64>, file_id: Option<i64>) -> Seq<char> {
    scope.nodes_spec("n"@) + " AND "@ + scope.nodes_spec("t"@) + " AND n.kb_id IS t.kb_id"@ + match kb_id {
        Some(id) => " AND n.kb_id="@ + decimal_int(id as int),
        None => seq![],
    } + match file_id {
        Some(id) => " AND e.file_id="@ + decimal_int(id as int),
        None => seq![],
    } + " AND (e.file_id IS NULL OR EXISTS(SELECT 1 FROM files f WHERE f.id=e.file_id AND f.kb_id IS n.kb_id))"@
        + if scope.admin {
        seq![]
    } else {
        " AND (n.kb_id IS NOT NULL OR (n.file_id=t.file_id AND e.file_id IN ("@ + ids_sql_spec(scope.loose_files@)
            + ")))"@
    }
}

/// The relation filter of a scope and the requested knowledge base and file.
pub fn edge_filter(scope: &Scope, kb_id: Option<i64>, file_id: Option<i64>) -> (s: String)
    ensures
        s@ == edge_filter_spec(*scope, kb_id, file_id),
{
    proof {
        reveal_strlit("n");
        reveal_strlit("t");
        reveal_strlit(" AND ");
        reveal_strlit(" AND n.kb_id IS t.kb_id");
        reveal_strlit(" AND n.kb_id=");
        reveal_strlit(" AND e.file_id=");
        reveal_strlit(" AND (e.file_id IS NULL OR EXISTS(SELECT 1 FROM files f WHERE f.id=e.file_id AND f.kb_id IS n.kb_id))");
        reveal_strlit(" AND (n.kb_id IS NOT NULL OR (n.file_id=t.file_id AND e.file_id IN (");
        reveal_strlit(")))");
    }
    let mut out: Vec<char> = Vec::new();
    scope.push_nodes(&mut out, "n");
    extend_str(&mut out, " AND ");
    scope.push_nodes(&mut out, "t");
    extend_str(&mut out, " AND n.kb_id IS t.kb_id");
    let ghost a = out@;
    if let Some(id) = kb_id {
        extend_str(&mut out, " AND n.kb_id=");
        push_i64(id, &mut out);
    }
    let ghost b = out@;
    if let Some(id) = file_id {
        extend_str(&mut out, " AND e.file_id=");
        push_i64(id, &mut out);
    }
    let ghost c = out@;
    extend_str(&mut out, " AND (e.file_id IS NULL OR EXISTS(SELECT 1 FROM files f WHERE f.id=e.file_id AND f.kb_id IS n.kb_id))");
    let ghost d = out@;
    if !scope.admin {
        extend_str(&mut out, " AND (n.kb_id IS NOT NULL OR (n.file_id=t.file_id AND e.file_id IN (");
        push_ids_sql(&mut out, scope.loose_files.as_slice());
        extend_str(&mut out, ")))");
    }
    assert(out@ =~= edge_filter_spec(*scope, kb_id, file_id));
    string_from_chars(out.as_slice())
}

/// The number of nodes a search returns: the given limit, or
/// `DEFAULT_LIMIT`; a bad request outside 1..=200.
pub fn search_limit(limit: Option<i64>) -> (r: Result<i64, ApiError>)
    ensures
        match r {
            Ok(l) => l == (match limit { Some(x) => x, None => DEFAULT_LIMIT }) && 1 <= l <= 200,
            Err(e) => !(1 <= (match limit { Some(x) => x, None => DEFAULT_LIMIT }) <= 200)
                && is_bad_request(e, MSG_BAD_LIMIT@),
        },
{
    let l = match limit {
        Some(x) => x,
        None => DEFAULT_LIMIT,
    };
    if 1 <= l && l <= 200 {
        Ok(l)
    } else {
        Err(ApiError::bad_request(MSG_BAD_LIMIT))
    }
}

/// A search text of three or more characters goes through the name index.
pub fn uses_name_index(q: Option<&str>) -> (b: bool)
    ensures
        b == (q matches Some(s) && s@.len() >= 3),
{
    match q {
        Some(s) => chars_of(s).len() >= 3,
        None => false,
    }
}

/// A search text as one quoted phrase of the full-text index: in double
/// quotes, each inner double quote doubled.
pub open spec fn fts_phrase_spec(q: Seq<char>) -> Seq<char>
    decreases q.len(),
{
    if q.len() == 0 {
        seq!['"', '"']
    } else {
        let inner = fts_phrase_spec(q.drop_last());
        let c = q.last();
        inner.drop_last() + (if c == '"' { seq!['"', '"'] } else { seq![c] }) + seq!['"']
    }
}

/// The search text as a full-text phrase, so no query syntax in it applies.
pub fn fts_phrase(q: &str) -> (s: String)
    ensures
        s@ == fts_phrase_spec(q@),
{
    let cs = chars_of(q);
    let mut out: Vec<char> = Vec::new();
    out.push('"');
    let mut i: usize = 0;
    while i < cs.len()
        invariant
            i <= cs@.len(),
            out@.push('"') == fts_phrase_spec(cs@.take(i as int)),
        decreases cs.len() - i,
    {
        let c = cs[i];
        let ghost before = out@;
        if c == '"' {
            out.push('"');
            out.push('"');
        } else {
            out.push(c);
        }
        proof {
            let t = cs@.take(i + 1);
            assert(t.drop_last() =~= cs@.take(i as int));
            assert(before.push('"').drop_last() =~= before);
            assert(out@.push('"') =~= fts_phrase_spec(t));
        }
        i = i + 1;
    }
    out.push('"');
    assert(cs@.take(cs@.len() as int) =~= cs@);
    string_from_chars(out.as_slice())
}

/// The endpoint ids of relations, source before target, in order.
pub open spec fn endpoint_ids(edges: Seq<(i64, i64)>) -> Seq<i64>
    decreases edges.len(),
{
    if edges.len() == 0 {
        seq![]
    } else {
        endpoint_ids(edges.drop_last()) + seq![edges.last().0, edges.last().1]
    }
}

/// Nodes taken into a subgraph: starting from `inc`, each further id is
/// added while fewer than `MAX_SUBGRAPH_NODES` are in.
pub open spec fn include_ids(inc: Seq<i64>, ids: Seq<i64>) -> Seq<i64>
    decreases ids.len(),
{
    if ids.len() == 0 {
        inc
    } else {
        let prev = include_ids(inc, ids.drop_last());
        if prev.len() < MAX_SUBGRAPH_NODES && !prev.contains(ids.last()) {
            prev.push(ids.last())
        } else {
            prev
        }
    }
}

/// The relations kept: those whose two ends were both taken in.
pub open spec fn kept_edges(edges: Seq<(i64, i64)>, inc: Seq<i64>) -> Seq<int>
    decreases edges.len(),
{
    if edges.len() == 0 {
        seq![]
    } else {
        let prev = kept_edges(edges.drop_last(), inc);
        if inc.contains(edges.last().0) && inc.contains(edges.last().1) {
            prev.push(edges.len() - 1)
        } else {
            prev
        }
    }
}

/// Ends of relations.
pub open spec fn edge_ends(edges: Seq<GraphEdge>) -> Seq<(i64, i64)> {
    edges.map_values(|e: GraphEdge| (e.source_id, e.target_id))
}

/// Which relations, by position among the first `MAX_SUBGRAPH_EDGES`, a
/// subgraph keeps, which nodes it takes in besides the matched ones, and
/// whether anything was left out: more relations than the cap, a full
/// page of matches for a search (not a single node), or a relation dropped
/// because one of its ends was not taken in.
pub open spec fn subgraph_plan(matched: Seq<i64>, edges: Seq<(i64, i64)>, single_node: bool, page_full: bool)
    -> (Seq<int>, Seq<i64>, bool)
{
    let capped = if edges.len() > MAX_SUBGRAPH_EDGES { edges.take(MAX_SUBGRAPH_EDGES as int) } else { edges };
    let start = dedup_first(matched);
    let inc = include_ids(start, endpoint_ids(capped));
    let kept = kept_edges(capped, inc);
    let extra = inc.skip(start.len() as int);
    let truncated = edges.len() > MAX_SUBGRAPH_EDGES || (!single_node && page_full) || kept.len() < capped.len();
    (kept, extra, truncated)
}

proof fn lemma_include_prefix(inc: Seq<i64>, ids: Seq<i64>)
    ensures
        include_ids(inc, ids).len() >= inc.len(),
        include_ids(inc, ids).take(inc.len() as int) == inc,
    decreases ids.len(),
{
    if ids.len() > 0 {
        lemma_include_prefix(inc, ids.drop_last());
        let prev = include_ids(inc, ids.drop_last());
        assert(prev.push(ids.last()).take(inc.len() as int) =~= prev.take(inc.len() as int));
    }
}

proof fn lemma_kept_len(edges: Seq<(i64, i64)>, inc: Seq<i64>)
    ensures
        kept_edges(edges, inc).len() <= edges.len(),
        forall|k: int| 0 <= k < kept_edges(edges, inc).len() ==> 0 <= #[trigger] kept_edges(edges, inc)[k] < edges.len(),
    decreases edges.len(),
{
    if edges.len() > 0 {
        lemma_kept_len(edges.drop_last(), inc);
    }
}

/// Plans a subgraph from the matched node ids and the relations found
/// around them (in id order): returns the positions of the relations kept,
/// the further node ids to load, and whether the subgraph is truncated.
pub fn plan_subgraph(matched: &Vec<i64>, edges: &Vec<GraphEdge>, single_node: bool, page_full: bool)
    -> (r: (Vec<usize>, Vec<i64>, bool))
    ensures
        ({
            let (kept, extra, truncated) = subgraph_plan(matched@, edge_ends(edges@), single_node, page_full);
            &&& r.0@.map_values(|k: usize| k as int) == kept
            &&& r.1@ == extra
            &&& r.2 == truncated
        }),
{
    let ghost ends = edge_ends(edges@);
    let n_all = edges.len();
    let n = if n_all > MAX_SUBGRAPH_EDGES { MAX_SUBGRAPH_EDGES } else { n_all };
    let ghost capped = if ends.len() > MAX_SUBGRAPH_EDGES { ends.take(MAX_SUBGRAPH_EDGES as int) } else { ends };
    assert(capped =~= ends.take(n as int));
    // The matched ids, each once.
    let mut inc: Vec<i64> = Vec::new();
    let mut i: usize = 0;
    while i < matched.len()
        invariant
            i <= matched@.len(),
            inc@ == dedup_first(matched@.take(i as int)),
        decreases matched.len() - i,
    {
        let id = matched[i];
        assert(matched@.take(i + 1).drop_last() =~= matched@.take(i as int));
        if !contains_id(&inc, id) {
            inc.push(id);
        }
        i = i + 1;
    }
    assert(matched@.take(matched@.len() as int) =~= matched@);
    let n_start = inc.len();
    let ghost start = inc@;
    // Endpoints, source then target, while room remains.
    let mut j: usize = 0;
    while j < n
        invariant
            n <= edges@.len() == ends.len(),
            ends == edge_ends(edges@),
            j <= n,
            start == dedup_first(matched@),
            n_start == start.len(),
            inc@ == include_ids(start, endpoint_ids(ends.take(j as int))),
        decreases n - j,
    {
        let s = edges[j].source_id;
        let t = edges[j].target_id;
        let ghost flat_before = endpoint_ids(ends.take(j as int));
        let ghost flat = endpoint_ids(ends.take(j + 1));
        proof {
            assert(ends.take(j + 1).drop_last() =~= ends.take(j as int));
            assert(ends[j as int] == (s, t));
            assert(flat =~= flat_before + seq![s, t]);
            assert(flat.drop_last().drop_last() =~= flat_before);
            assert(flat.drop_last().last() == s);
            assert(flat.last() == t);
        }
        if inc.len() < MAX_SUBGRAPH_NODES && !contains_id(&inc, s) {
            inc.push(s);
        }
        assert(inc@ == include_ids(start, flat.drop_last()));
        if inc.len() < MAX_SUBGRAPH_NODES && !contains_id(&inc, t) {
            inc.push(t);
        }
        j = j + 1;
    }
    let ghost included = inc@;
    // Relations with both ends taken in.
    let mut kept: Vec<usize> = Vec::new();
    let mut k: usize = 0;
    while k < n
        invariant
            n <= edges@.len() == ends.len(),
            ends == edge_ends(edges@),
            k <= n,
            included == inc@,
            kept@.map_values(|x: usize| x as int) == kept_edges(ends.take(k as int), included),
            kept@.len() <= k,
        decreases n - k,
    {
        let e = &edges[k];
        proof {
            assert(ends.take(k + 1).drop_last() =~= ends.take(k as int));
            assert(ends[k as int] == (e.source_id, e.target_id));
        }
        let ghost before = kept@;
        if contains_id(&inc, e.source_id) && contains_id(&inc, e.target_id) {
            kept.push(k);
            proof {
                assert(kept@.map_values(|x: usize| x as int) =~= before.map_values(|x: usize| x as int).push(k as int));
            }
        }
        k = k + 1;
    }
    // Nodes beyond the matched ones.
    proof {
        lemma_include_prefix(start, endpoint_ids(capped));
    }
    let mut extra: Vec<i64> = Vec::new();
    let mut m: usize = n_start;
    while m < inc.len()
        invariant
            n_start <= m <= inc@.len(),
            extra@ == inc@.subrange(n_start as int, m as int),
        decreases inc.len() - m,
    {
        extra.push(inc[m]);
        assert(inc@.subrange(n_start as int, m + 1) =~= inc@.subrange(n_start as int, m as int).push(inc@[m as int]));
        m = m + 1;
    }
    assert(inc@.subrange(n_start as int, inc@.len() as int) =~= inc@.skip(n_start as int));
    let truncated = n_all > MAX_SUBGRAPH_EDGES || (!single_node && page_full) || kept.len() < n;
    (kept, extra, truncated)
}

/// A neighbor is reached through an outgoing relation when the node is its
/// source, else through an incoming one; the neighbor is the other end.
pub fn neighbor_of(node_id: i64, edge: &GraphEdge) -> (r: (i64, &'static str))
    ensures
        edge.source_id == node_id ==> r.0 == edge.target_id && r.1@ == "outgoing"@,
        edge.source_id != node_id ==> r.0 == edge.source_id && r.1@ == "incoming"@,
{
    if edge.source_id == node_id {
        (edge.target_id, "outgoing")
    } else {
        (edge.source_id, "incoming")
    }
}

/// Sum of the counts of a distribution.
pub open spec fn count_sum(counts: Seq<(String, i64)>) -> int
    decreases counts.len(),
{
    if counts.len() == 0 {
        0
    } else {
        count_sum(counts.drop_last()) + counts.last().1
    }
}

/// The total of a per-kind distribution.
pub fn total_count(counts: &Vec<(String, i64)>) -> (t: i64)
    requires
        forall|k: int| 0 <= k <= counts@.len() ==> i64::MIN <= #[trigger] count_sum(counts@.take(k)) <= i64::MAX,
    ensures
        t == count_sum(counts@),
{
    let mut t: i64 = 0;
    let mut i: usize = 0;
    assert(counts@.take(0) =~= Seq::<(String, i64)>::empty());
    while i < counts.len()
        invariant
            i <= counts@.len(),
            t == count_sum(counts@.take(i as int)),
            forall|k: int| 0 <= k <= counts@.len() ==> i64::MIN <= #[trigger] count_sum(counts@.take(k)) <= i64::MAX,
        decreases counts.len() - i,
    {
        assert(counts@.take(i + 1).drop_last() =~= counts@.take(i as int));
        assert(i64::MIN <= count_sum(counts@.take(i + 1)) <= i64::MAX);
        t = t + counts[i].1;
        i = i + 1;
    }
    assert(counts@.take(counts@.len() as int) =~= counts@);
    t
}


/// A character that an id list in SQL may hold.
pub open spec fn sql_id_char(c: char) -> bool {
    is_digit(c) || c == '-' || c == ','
}

proof fn lemma_decimal_nat_digits(n: nat)
    ensures
        forall|k: int| 0 <= k < decimal_nat(n).len() ==> is_digit(#[trigger] decimal_nat(n)[k]),
    decreases n,
{
    if n >= 10 {
        lemma_decimal_nat_digits(n / 10);
        let prev = decimal_nat(n / 10);
        assert forall|k: int| 0 <= k < decimal_nat(n).len() implies is_digit(#[trigger] decimal_nat(n)[k]) by {
            if k < prev.len() {
                assert(decimal_nat(n)[k] == prev[k]);
            } else {
                assert(decimal_nat(n)[k] == digit_char(n % 10));
            }
        }
    } else {
        assert(decimal_nat(n)[0] == digit_char(n));
    }
}

proof fn lemma_join_ids_chars(ids: Seq<i64>)
    ensures
        forall|k: int| 0 <= k < join_ids(ids, ","@).len() ==> sql_id_char(#[trigger] join_ids(ids, ","@)[k]),
    decreases ids.len(),
{
    reveal_strlit(",");
    if ids.len() == 1 {
        let v = ids[0] as int;
        if v < 0 {
            lemma_decimal_nat_digits((-v) as nat);
            assert forall|k: int| 0 <= k < decimal_int(v).len() implies sql_id_char(#[trigger] decimal_int(v)[k]) by {
                if k > 0 {
                    assert(decimal_int(v)[k] == decimal_nat((-v) as nat)[k - 1]);
                }
            }
        } else {
            lemma_decimal_nat_digits(v as nat);
        }
    } else if ids.len() > 1 {
        lemma_join_ids_chars(ids.drop_last());
        let a = join_ids(ids.drop_last(), ","@);
        let v = ids.last() as int;
        let d = decimal_int(v);
        if v < 0 {
            lemma_decimal_nat_digits((-v) as nat);
        } else {
            lemma_decimal_nat_digits(v as nat);
        }
        assert forall|k: int| 0 <= k < d.len() implies sql_id_char(#[trigger] d[k]) by {
            if v < 0 && k > 0 {
                assert(d[k] == decimal_nat((-v) as nat)[k - 1]);
            }
        }
        let j = join_ids(ids, ","@);
        assert(j == a + ","@ + d);
        assert forall|k: int| 0 <= k < j.len() implies sql_id_char(#[trigger] j[k]) by {
            if k < a.len() {
                assert(j[k] == a[k]);
            } else if k == a.len() {
                assert(j[k] == ',');
            } else {
                assert(j[k] == d[k - a.len() - 1]);
            }
        }
    }
}

/// SQL id lists hold nothing but typed integers: `NULL` for none, else only
/// digits, minus signs and commas, so no text from a request can reach the
/// statement through them.
pub proof fn lemma_ids_sql_safe(ids: Seq<i64>)
    ensures
        ids.len() == 0 ==> ids_sql_spec(ids) == "NULL"@,
        ids.len() > 0 ==> forall|k: int| 0 <= k < ids_sql_spec(ids).len() ==> sql_id_char(#[trigger] ids_sql_spec(ids)[k]),
{
    if ids.len() > 0 {
        lemma_join_ids_chars(ids);
    }
}

proof fn lemma_include_ids_props(inc: Seq<i64>, ids: Seq<i64>)
    ensures
        include_ids(inc, ids).len() <= if inc.len() > MAX_SUBGRAPH_NODES { inc.len() } else { MAX_SUBGRAPH_NODES as nat },
        forall|k: int| inc.len() <= k < include_ids(inc, ids).len() ==> !inc.contains(#[trigger] include_ids(inc, ids)[k]),
        forall|k: int| 0 <= k < inc.len() ==> include_ids(inc, ids)[k] == inc[k],
        include_ids(inc, ids).len() >= inc.len(),
    decreases ids.len(),
{
    if ids.len() > 0 {
        lemma_include_ids_props(inc, ids.drop_last());
        let prev = include_ids(inc, ids.drop_last());
        if prev.len() < MAX_SUBGRAPH_NODES && !prev.contains(ids.last()) {
            let r = prev.push(ids.last());
            assert forall|k: int| inc.len() <= k < r.len() implies !inc.contains(#[trigger] r[k]) by {
                if k == r.len() - 1 {
                    if inc.contains(ids.last()) {
                        let m = choose|m: int| 0 <= m < inc.len() && inc[m] == ids.last();
                        assert(prev[m] == ids.last());
                    }
                } else {
                    assert(r[k] == prev[k]);
                }
            }
        }
    }
}

proof fn lemma_kept_edges_ends(edges: Seq<(i64, i64)>, inc: Seq<i64>)
    ensures
        forall|j: int| 0 <= j < kept_edges(edges, inc).len() ==> {
            let p = #[trigger] kept_edges(edges, inc)[j];
            0 <= p < edges.len() && inc.contains(edges[p].0) && inc.contains(edges[p].1)
        },
    decreases edges.len(),
{
    if edges.len() > 0 {
        lemma_kept_edges_ends(edges.drop_last(), inc);
        let prev = kept_edges(edges.drop_last(), inc);
        assert forall|j: int| 0 <= j < kept_edges(edges, inc).len() implies {
            let p = #[trigger] kept_edges(edges, inc)[j];
            0 <= p < edges.len() && inc.contains(edges[p].0) && inc.contains(edges[p].1)
        } by {
            if j < prev.len() {
                assert(kept_edges(edges, inc)[j] == prev[j]);
                assert(edges.drop_last()[prev[j]] == edges[prev[j]]);
            }
        }
    }
}

/// A subgraph is closed: every relation it keeps is among the first
/// `MAX_SUBGRAPH_EDGES` found and joins two nodes it returns (matched or
/// taken in); the nodes taken in besides the matched ones are new ones, and
/// at most `MAX_SUBGRAPH_NODES` nodes are taken in beyond a larger match.
pub proof fn lemma_subgraph_closed(matched: Seq<i64>, edges: Seq<(i64, i64)>, single_node: bool, page_full: bool)
    ensures
        ({
            let (kept, extra, truncated) = subgraph_plan(matched, edges, single_node, page_full);
            &&& forall|j: int| 0 <= j < kept.len() ==> {
                let p = #[trigger] kept[j];
                &&& 0 <= p < edges.len() && p < MAX_SUBGRAPH_EDGES
                &&& (matched.contains(edges[p].0) || extra.contains(edges[p].0))
                &&& (matched.contains(edges[p].1) || extra.contains(edges[p].1))
            }
            &&& forall|k: int| 0 <= k < extra.len() ==> !matched.contains(#[trigger] extra[k])
            &&& dedup_first(matched).len() + extra.len() <= if dedup_first(matched).len() > MAX_SUBGRAPH_NODES {
                dedup_first(matched).len()
            } else {
                MAX_SUBGRAPH_NODES as nat
            }
        }),
{
    let capped = if edges.len() > MAX_SUBGRAPH_EDGES { edges.take(MAX_SUBGRAPH_EDGES as int) } else { edges };
    let start = dedup_first(matched);
    let inc = include_ids(start, endpoint_ids(capped));
    let extra = inc.skip(start.len() as int);
    lemma_dedup_first_props(matched);
    lemma_include_ids_props(start, endpoint_ids(capped));
    lemma_kept_edges_ends(capped, inc);
    assert(inc =~= start + extra);
    let (kept, ex, t) = subgraph_plan(matched, edges, single_node, page_full);
    assert(ex == extra);
    assert forall|x: i64| inc.contains(x) implies (matched.contains(x) || extra.contains(x)) by {
        let m = choose|m: int| 0 <= m < inc.len() && inc[m] == x;
        if m < start.len() {
            assert(start[m] == x);
            assert(start.contains(x));
        } else {
            assert(extra[m - start.len()] == x);
        }
    }
    assert forall|j: int| 0 <= j < kept.len() implies {
        let p = #[trigger] kept[j];
        &&& 0 <= p < edges.len() && p < MAX_SUBGRAPH_EDGES
        &&& (matched.contains(edges[p].0) || extra.contains(edges[p].0))
        &&& (matched.contains(edges[p].1) || extra.contains(edges[p].1))
    } by {
        let p = kept[j];
        assert(capped[p] == edges[p]);
        assert(inc.contains(capped[p].0));
        assert(inc.contains(capped[p].1));
    }
    assert forall|k: int| 0 <= k < extra.len() implies !matched.contains(#[trigger] extra[k]) by {
        assert(extra[k] == inc[k + start.len()]);
        assert(!start.contains(inc[k + start.len()]));
    }
}

} // verus!
