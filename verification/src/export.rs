//! Export of knowledge bases: the manifest that describes an export.
use vstd::prelude::*;

use crate::api::search::{join_ids, push_joined_ids};
use crate::text::{decimal_int, extend_str, owned, push_i64, string_from_chars};

verus! {

/// Metadata written with an export.
#[derive(Clone, Debug)]
pub struct ExportManifest {
    pub version: String,
    pub export_type: String,
    pub kb_ids: Vec<i64>,
    pub kb_names: Vec<String>,
    pub exported_at: String,
    pub file_count: usize,
    pub slice_count: usize,
    pub node_count: usize,
    pub edge_count: usize,
    pub mention_count: usize,
    pub snapshot_count: usize,
    pub tantivy_doc_count: usize,
    pub tantivy_full_doc_count: usize,
    pub lancedb_row_count: usize,
}

impl Default for ExportManifest {
    /// Version 1.0 of a knowledge-base export, with nothing counted yet.
    fn default() -> (m: ExportManifest)
        ensures
            m.version@ == "1.0"@,
            m.export_type@ == "knowledge_base"@,
            m.kb_ids@.len() == 0,
            m.kb_names@.len() == 0,
            m.exported_at@.len() == 0,
            m.file_count == 0 && m.slice_count == 0 && m.node_count == 0 && m.edge_count == 0,
            m.mention_count == 0 && m.snapshot_count == 0 && m.tantivy_doc_count == 0,
            m.tantivy_full_doc_count == 0 && m.lancedb_row_count == 0,
    {
        ExportManifest {
            version: owned("1.0"),
            export_type: owned("knowledge_base"),
            kb_ids: Vec::new(),
            kb_names: Vec::new(),
            exported_at: String::new(),
            file_count: 0,
            slice_count: 0,
            node_count: 0,
            edge_count: 0,
            mention_count: 0,
            snapshot_count: 0,
            tantivy_doc_count: 0,
            tantivy_full_doc_count: 0,
            lancedb_row_count: 0,
        }
    }
}

/// Ids in strictly increasing order: sorted, with no id twice.
pub open spec fn strictly_increasing(s: Seq<i64>) -> bool {
    forall|i: int, j: int| 0 <= i < j < s.len() ==> s[i] < s[j]
}

/// Inserts `x` at its place in a strictly increasing list, unless present.
fn insert_unique(v: &mut Vec<i64>, x: i64)
    requires
        strictly_increasing(old(v)@),
    ensures
        strictly_increasing(final(v)@),
        forall|y: i64| final(v)@.contains(y) <==> (old(v)@.contains(y) || y == x),
{
    let mut i: usize = 0;
    while i < v.len() && v[i] < x
        invariant
            i <= v@.len(),
            v@ == old(v)@,
            forall|k: int| 0 <= k < i ==> v@[k] < x,
        decreases v@.len() - i,
    {
        i = i + 1;
    }
    if i < v.len() && v[i] == x {
        return;
    }
    let ghost before = v@;
    v.insert(i, x);
    proof {
        assert(v@ == before.take(i as int).push(x) + before.skip(i as int));
        assert forall|a: int, b: int| 0 <= a < b < v@.len() implies v@[a] < v@[b] by {
            if b < i {
            } else if a < i && b == i {
            } else if a < i {
                assert(v@[b] == before[b - 1]);
            } else if a == i {
                assert(v@[b] == before[b - 1]);
                assert(before[i as int] > x);
                if b - 1 > i {
                    assert(before[i as int] < before[b - 1]);
                }
            } else {
                assert(v@[a] == before[a - 1]);
                assert(v@[b] == before[b - 1]);
            }
        }
        assert(before == old(v)@);
        assert forall|y: i64| #[trigger] v@.contains(y) <==> (before.contains(y) || y == x) by {
            if v@.contains(y) {
                let k = choose|k: int| 0 <= k < v@.len() && v@[k] == y;
                if k < i {
                    assert(before[k] == y);
                } else if k > i {
                    assert(before[k - 1] == y);
                }
            }
            if before.contains(y) {
                let k = choose|k: int| 0 <= k < before.len() && before[k] == y;
                if k < i {
                    assert(v@[k] == y);
                } else {
                    assert(v@[k + 1] == y);
                }
            }
            if y == x {
                assert(v@[i as int] == x);
            }
        }
    }
}

/// The ids sorted ascending with repeats removed, as `sort_unstable`
/// followed by `dedup` leaves them.
pub fn sorted_unique_ids(ids: &[i64]) -> (r: Vec<i64>)
    ensures
        strictly_increasing(r@),
        forall|x: i64| r@.contains(x) <==> ids@.contains(x),
{
    let mut out: Vec<i64> = Vec::new();
    let mut i: usize = 0;
    while i < ids.len()
        invariant
            i <= ids@.len(),
            strictly_increasing(out@),
            forall|x: i64| out@.contains(x) <==> ids@.take(i as int).contains(x),
        decreases ids@.len() - i,
    {
        insert_unique(&mut out, ids[i]);
        proof {
            let t = ids@.take(i + 1);
            assert(t == ids@.take(i as int).push(ids@[i as int]));
            assert forall|x: i64| t.contains(x) <==> (ids@.take(i as int).contains(x) || x == ids@[i as int]) by {
                if t.contains(x) {
                    let k = choose|k: int| 0 <= k < t.len() && t[k] == x;
                    if k < i {
                        assert(ids@.take(i as int)[k] == x);
                    }
                }
                if ids@.take(i as int).contains(x) {
                    let k = choose|k: int| 0 <= k < i && ids@.take(i as int)[k] == x;
                    assert(t[k] == x);
                }
                if x == ids@[i as int] {
                    assert(t[i as int] == x);
                }
            }
        }
        i = i + 1;
    }
    assert(ids@.take(ids@.len() as int) =~= ids@);
    out
}

/// The knowledge bases an export writes to its database: the exported ones
/// and their ancestors, sorted, each once.
pub fn merge_kb_ids(targets: &[i64], ancestors: &[i64]) -> (r: Vec<i64>)
    ensures
        strictly_increasing(r@),
        forall|x: i64| r@.contains(x) <==> (targets@.contains(x) || ancestors@.contains(x)),
{
    let mut all: Vec<i64> = Vec::new();
    let mut j: usize = 0;
    while j < targets.len()
        invariant
            j <= targets@.len(),
            all@ == targets@.take(j as int),
        decreases targets@.len() - j,
    {
        all.push(targets[j]);
        assert(targets@.take(j + 1) == targets@.take(j as int).push(targets@[j as int]));
        j = j + 1;
    }
    assert(targets@.take(targets@.len() as int) =~= targets@);
    let mut i: usize = 0;
    while i < ancestors.len()
        invariant
            i <= ancestors@.len(),
            all@ == targets@ + ancestors@.take(i as int),
        decreases ancestors@.len() - i,
    {
        all.push(ancestors[i]);
        assert(ancestors@.take(i + 1) == ancestors@.take(i as int).push(ancestors@[i as int]));
        i = i + 1;
    }
    assert(ancestors@.take(ancestors@.len() as int) =~= ancestors@);
    let r = sorted_unique_ids(all.as_slice());
    proof {
        assert forall|x: i64| all@.contains(x) <==> (targets@.contains(x) || ancestors@.contains(x)) by {
            if all@.contains(x) {
                let k = choose|k: int| 0 <= k < all@.len() && all@[k] == x;
                if k < targets@.len() {
                    assert(targets@[k] == x);
                } else {
                    assert(ancestors@[k - targets@.len()] == x);
                }
            }
            if targets@.contains(x) {
                let k = choose|k: int| 0 <= k < targets@.len() && targets@[k] == x;
                assert(all@[k] == x);
            }
            if ancestors@.contains(x) {
                let k = choose|k: int| 0 <= k < ancestors@.len() && ancestors@[k] == x;
                assert(all@[targets@.len() + k] == x);
            }
        }
    }
    r
}

/// The parents found in one round of the walk up to the ancestors that were
/// not seen before, each once, in the order found (`None` for a root).
pub open spec fn new_parents(seen: Seq<i64>, found: Seq<Option<i64>>) -> Seq<i64>
    decreases found.len(),
{
    if found.len() == 0 {
        seq![]
    } else {
        let earlier = new_parents(seen, found.drop_last());
        match found.last() {
            Some(p) => if seen.contains(p) || earlier.contains(p) {
                earlier
            } else {
                earlier.push(p)
            },
            None => earlier,
        }
    }
}

/// One round of the walk up to the ancestors of the exported knowledge
/// bases: each parent not seen yet is marked seen and kept as an ancestor;
/// those are the ids whose parents the next round looks up.
pub fn record_new_parents(seen: &mut Vec<i64>, ancestors: &mut Vec<i64>, found: &[Option<i64>]) -> (next: Vec<i64>)
    ensures
        next@ == new_parents(old(seen)@, found@),
        final(seen)@ == old(seen)@ + next@,
        final(ancestors)@ == old(ancestors)@ + next@,
{
    let mut next: Vec<i64> = Vec::new();
    let mut i: usize = 0;
    while i < found.len()
        invariant
            i <= found@.len(),
            next@ == new_parents(old(seen)@, found@.take(i as int)),
            seen@ == old(seen)@ + next@,
            ancestors@ == old(ancestors)@ + next@,
        decreases found@.len() - i,
    {
        let ghost t = found@.take(i + 1);
        assert(t.drop_last() == found@.take(i as int));
        assert(t.last() == found@[i as int]);
        if let Some(p) = found[i] {
            let mut known = false;
            let mut k: usize = 0;
            while k < seen.len()
                invariant
                    k <= seen@.len(),
                    known == exists|m: int| 0 <= m < k && seen@[m] == p,
                decreases seen@.len() - k,
            {
                if seen[k] == p {
                    known = true;
                }
                k = k + 1;
            }
            proof {
                let e = new_parents(old(seen)@, found@.take(i as int));
                assert(known <==> (old(seen)@.contains(p) || e.contains(p))) by {
                    if known {
                        let m = choose|m: int| 0 <= m < seen@.len() && seen@[m] == p;
                        if m < old(seen)@.len() {
                            assert(old(seen)@[m] == p);
                        } else {
                            assert(e[m - old(seen)@.len()] == p);
                        }
                    }
                    if old(seen)@.contains(p) {
                        let m = choose|m: int| 0 <= m < old(seen)@.len() && old(seen)@[m] == p;
                        assert(seen@[m] == p);
                    }
                    if e.contains(p) {
                        let m = choose|m: int| 0 <= m < e.len() && e[m] == p;
                        assert(seen@[old(seen)@.len() + m] == p);
                    }
                }
            }
            if !known {
                seen.push(p);
                ancestors.push(p);
                next.push(p);
            }
        }
        i = i + 1;
    }
    assert(found@.take(found@.len() as int) =~= found@);
    next
}

/// Name of an export's directory: `kb_<id>_<timestamp>` for one knowledge
/// base, else `kb_batch_<ids joined by _>_<timestamp>`.
pub open spec fn export_dir_name_spec(ids: Seq<i64>, timestamp: Seq<char>) -> Seq<char> {
    if ids.len() == 1 {
        "kb_"@ + decimal_int(ids[0] as int) + seq!['_'] + timestamp
    } else {
        "kb_batch_"@ + join_ids(ids, "_"@) + seq!['_'] + timestamp
    }
}

/// The directory name of an export of the knowledge bases `ids`, asked for
/// in that order, made at `timestamp`.
pub fn export_dir_name(ids: &[i64], timestamp: &str) -> (s: String)
    ensures
        s@ == export_dir_name_spec(ids@, timestamp@),
{
    let mut out: Vec<char> = Vec::new();
    if ids.len() == 1 {
        extend_str(&mut out, "kb_");
        push_i64(ids[0], &mut out);
    } else {
        extend_str(&mut out, "kb_batch_");
        push_joined_ids(&mut out, ids, ids.len(), "_");
        assert(ids@.take(ids@.len() as int) =~= ids@);
    }
    out.push('_');
    extend_str(&mut out, timestamp);
    string_from_chars(out.as_slice())
}

} // verus!
