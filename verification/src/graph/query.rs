//! Graph-backed retrieval: the names a question may mention, and evidence
//! rows linking graph names to slices.
use vstd::prelude::*;

use crate::text::{all_ws, chars_lt, chars_of, lemma_lex_order, lex_lt, slice_chars, string_from_chars, trim, trim_range};

verus! {

/// A slice that mentions a graph node, with the text around the mention.
#[derive(Debug, Clone)]
pub struct Evidence {
    pub slice_id: i64,
    pub file_id: i64,
    pub kb_id: Option<i64>,
    pub context: String,
}

/// Characters of a question that are searched for names.
pub const CANDIDATE_SPAN: usize = 128;

/// Longest name searched for, in characters.
pub const MAX_NAME_CHARS: usize = 32;

/// The searched part of a question: its first `CANDIDATE_SPAN` characters
/// after trimming.
pub open spec fn candidate_span(query: Seq<char>) -> Seq<char> {
    let t = trim(query);
    if t.len() > CANDIDATE_SPAN { t.take(CANDIDATE_SPAN as int) } else { t }
}

/// A non-blank piece of at most `MAX_NAME_CHARS` characters of `cs` that
/// starts before `s_end`, or at `s_end` and ends before `e_end`.
pub open spec fn piece_before(cs: Seq<char>, t: Seq<char>, s_end: int, e_end: int) -> bool {
    exists|s: int, e: int|
        #![trigger cs.subrange(s, e)]
        0 <= s < e <= cs.len() && e <= s + MAX_NAME_CHARS && t == cs.subrange(s, e) && !all_ws(t)
            && (s < s_end || (s == s_end && e < e_end))
}

/// The names a question is matched against: the whole trimmed question and
/// every non-blank piece of at most `MAX_NAME_CHARS` characters of its
/// first `CANDIDATE_SPAN` characters.
pub open spec fn is_candidate(query: Seq<char>, t: Seq<char>) -> bool {
    t == trim(query) || piece_before(candidate_span(query), t, candidate_span(query).len() as int, 0)
}

/// Strictly increasing in code-point order.
pub open spec fn sorted_strict(v: Seq<Seq<char>>) -> bool {
    forall|i: int, j: int| 0 <= i < j < v.len() ==> lex_lt(#[trigger] v[i], #[trigger] v[j])
}

/// Plain values of names.
pub open spec fn names_view(v: Seq<String>) -> Seq<Seq<char>> {
    v.map_values(|s: String| s@)
}

/// Character views of character vectors.
pub open spec fn char_vecs(v: Seq<Vec<char>>) -> Seq<Seq<char>> {
    v.map_values(|x: Vec<char>| x@)
}

/// Adds `t` to a strictly sorted list unless it is there already.
pub(crate) fn insert_sorted(v: &mut Vec<Vec<char>>, t: Vec<char>)
    requires
        sorted_strict(char_vecs(old(v)@)),
    ensures
        sorted_strict(char_vecs(final(v)@)),
        forall|x: Seq<char>| #[trigger] char_vecs(final(v)@).contains(x) <==> (char_vecs(old(v)@).contains(x) || x == t@),
{
    let ghost w = char_vecs(v@);
    let mut p: usize = 0;
    while p < v.len() && chars_lt(v[p].as_slice(), t.as_slice())
        invariant
            p <= v@.len(),
            w == char_vecs(v@),
            sorted_strict(w),
            forall|k: int| 0 <= k < p ==> lex_lt(#[trigger] w[k], t@),
        decreases v.len() - p,
    {
        assert(w[p as int] == v@[p as int]@);
        p = p + 1;
    }
    if p < v.len() && crate::text::chars_eq(v[p].as_slice(), t.as_slice()) {
        assert(w[p as int] == t@);
        assert forall|x: Seq<char>| #[trigger] char_vecs(v@).contains(x) <==> (w.contains(x) || x == t@) by {
            if x == t@ {
                assert(w[p as int] == x);
            }
        }
        return;
    }
    proof {
        if p < w.len() {
            assert(w[p as int] == v@[p as int]@);
            assert(!lex_lt(w[p as int], t@));
            lemma_lex_order(w[p as int], t@, t@);
            assert(w[p as int] != t@);
            assert(lex_lt(t@, w[p as int]));
        }
    }
    let ghost tv = t@;
    v.insert(p, t);
    proof {
        let u = char_vecs(v@);
        assert(u =~= w.insert(p as int, tv));
        assert forall|i: int, j: int| 0 <= i < j < u.len() implies lex_lt(#[trigger] u[i], #[trigger] u[j]) by {
            if j < p {
                assert(u[i] == w[i] && u[j] == w[j]);
            } else if j == p {
                assert(u[i] == w[i]);
            } else if i < p {
                assert(u[i] == w[i] && u[j] == w[j - 1]);
                assert(lex_lt(w[i], tv));
                assert(lex_lt(tv, w[p as int]));
                lemma_lex_order(w[i], tv, w[p as int]);
                if j - 1 > p {
                    lemma_lex_order(w[i], w[p as int], w[j - 1]);
                }
            } else if i == p {
                assert(u[j] == w[j - 1]);
                if j - 1 > p {
                    lemma_lex_order(tv, w[p as int], w[j - 1]);
                }
            } else {
                assert(u[i] == w[i - 1] && u[j] == w[j - 1]);
            }
        }
        assert forall|x: Seq<char>| #[trigger] u.contains(x) <==> (w.contains(x) || x == tv) by {
            if u.contains(x) {
                let k = choose|k: int| 0 <= k < u.len() && u[k] == x;
                if k < p {
                    assert(w[k] == x);
                } else if k > p {
                    assert(w[k - 1] == x);
                }
            }
            if w.contains(x) {
                let k = choose|k: int| 0 <= k < w.len() && w[k] == x;
                if k < p {
                    assert(u[k] == x);
                } else {
                    assert(u[k + 1] == x);
                }
            }
            if x == tv {
                assert(u[p as int] == x);
            }
        }
    }
}

/// The names to look up for a question, each once, in code-point order, so
/// that the name index serves the lookup and embedded names (such as
/// Chinese names inside a sentence) are found without scanning every node.
#[verifier::loop_isolation(false)]
pub fn candidates(query: &str) -> (r: Vec<String>)
    ensures
        sorted_strict(names_view(r@)),
        forall|x: Seq<char>| #[trigger] names_view(r@).contains(x) <==> is_candidate(query@, x),
{
    let all = chars_of(query);
    let (a, b) = trim_range(all.as_slice());
    let trimmed = slice_chars(all.as_slice(), a, b);
    let span = if trimmed.len() > CANDIDATE_SPAN { CANDIDATE_SPAN } else { trimmed.len() };
    let cs = slice_chars(trimmed.as_slice(), 0, span);
    let ghost q = query@;
    assert(cs@ == candidate_span(q));
    let mut found: Vec<Vec<char>> = Vec::new();
    insert_sorted(&mut found, trimmed);
    let n = cs.len();
    let mut start: usize = 0;
    while start < n
        invariant
            start <= n == cs@.len(),
            sorted_strict(char_vecs(found@)),
            forall|x: Seq<char>| #[trigger] char_vecs(found@).contains(x) <==> (x == trim(q) || piece_before(cs@, x, start as int, 0)),
        decreases n - start,
    {
        let last = if n - start > MAX_NAME_CHARS { start + MAX_NAME_CHARS } else { n };
        let mut end: usize = start + 1;
        proof {
            assert forall|x: Seq<char>| piece_before(cs@, x, start as int, 0) <==> piece_before(cs@, x, start as int, end as int) by {
                if piece_before(cs@, x, start as int, end as int) {
                    let (s, e) = choose|s: int, e: int|
                        #![trigger cs@.subrange(s, e)]
                        0 <= s < e <= cs@.len() && e <= s + MAX_NAME_CHARS && x == cs@.subrange(s, e) && !all_ws(x)
                            && (s < start || (s == start && e < end));
                    assert(s < start);
                }
            }
        }
        while end <= last
            invariant
                start < n == cs@.len(),
                start + 1 <= end <= last + 1,
                last == if n - start > MAX_NAME_CHARS { start + MAX_NAME_CHARS } else { n as int },
                sorted_strict(char_vecs(found@)),
                forall|x: Seq<char>| #[trigger] char_vecs(found@).contains(x) <==> (x == trim(q) || piece_before(cs@, x, start as int, end as int)),
            decreases last + 1 - end,
        {
            let term = slice_chars(cs.as_slice(), start, end);
            let blank = crate::text::is_blank(string_from_chars(term.as_slice()).as_str());
            let ghost before = char_vecs(found@);
            let ghost tv = term@;
            if !blank {
                insert_sorted(&mut found, term);
            }
            proof {
                assert forall|x: Seq<char>| #[trigger] char_vecs(found@).contains(x) <==> (x == trim(q) || piece_before(cs@, x, start as int, end + 1)) by {
                    if piece_before(cs@, x, start as int, end + 1) {
                        let (s, e) = choose|s: int, e: int|
                            #![trigger cs@.subrange(s, e)]
                            0 <= s < e <= cs@.len() && e <= s + MAX_NAME_CHARS && x == cs@.subrange(s, e) && !all_ws(x)
                                && (s < start || (s == start && e < end + 1));
                        if !(s < start || (s == start && e < end)) {
                            assert(s == start && e == end);
                            assert(x == tv);
                        } else {
                            assert(piece_before(cs@, x, start as int, end as int));
                        }
                    }
                    if !blank && x == tv {
                        assert(cs@.subrange(start as int, end as int) == tv);
                        assert(piece_before(cs@, x, start as int, end + 1));
                    }
                    if piece_before(cs@, x, start as int, end as int) {
                        let (s, e) = choose|s: int, e: int|
                            #![trigger cs@.subrange(s, e)]
                            0 <= s < e <= cs@.len() && e <= s + MAX_NAME_CHARS && x == cs@.subrange(s, e) && !all_ws(x)
                                && (s < start || (s == start && e < end));
                        assert(piece_before(cs@, x, start as int, end + 1));
                    }
                }
            }
            end = end + 1;
        }
        proof {
            assert forall|x: Seq<char>| piece_before(cs@, x, start as int, end as int) <==> piece_before(cs@, x, start + 1, 0) by {
                if piece_before(cs@, x, start + 1, 0) {
                    let (s, e) = choose|s: int, e: int|
                        #![trigger cs@.subrange(s, e)]
                        0 <= s < e <= cs@.len() && e <= s + MAX_NAME_CHARS && x == cs@.subrange(s, e) && !all_ws(x)
                            && (s < start + 1 || (s == start + 1 && e < 0));
                    assert(s < start || (s == start && e < end));
                }
                if piece_before(cs@, x, start as int, end as int) {
                    let (s, e) = choose|s: int, e: int|
                        #![trigger cs@.subrange(s, e)]
                        0 <= s < e <= cs@.len() && e <= s + MAX_NAME_CHARS && x == cs@.subrange(s, e) && !all_ws(x)
                            && (s < start || (s == start && e < end));
                    assert(s < start + 1);
                }
            }
        }
        start = start + 1;
    }
    let mut out: Vec<String> = Vec::new();
    let mut i: usize = 0;
    while i < found.len()
        invariant
            i <= found@.len(),
            names_view(out@) == char_vecs(found@).take(i as int),
        decreases found.len() - i,
    {
        let s = string_from_chars(found[i].as_slice());
        let ghost before = out@;
        out.push(s);
        proof {
            assert(names_view(out@) =~= names_view(before).push(found@[i as int]@));
            assert(char_vecs(found@).take(i + 1) =~= char_vecs(found@).take(i as int).push(found@[i as int]@));
        }
        i = i + 1;
    }
    proof {
        assert(char_vecs(found@).take(found@.len() as int) =~= char_vecs(found@));
        assert forall|x: Seq<char>| piece_before(cs@, x, n as int, 0) <==> piece_before(candidate_span(q), x, candidate_span(q).len() as int, 0) by {}
    }
    out
}

} // verus!
