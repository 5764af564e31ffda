//! Co-occurrence of entities in a text: the words of the text, where each
//! entity is mentioned, and for every pair of entities mentioned within a
//! window of words, how often and how close. The weight given to a pair is a
//! floating-point score that the caller computes from these counts.
use vstd::prelude::*;

use crate::graph::query::char_vecs;
use crate::text::{chars_eq, chars_lt, chars_of, contains_seq, extend_chars, find_chars, is_whitespace, is_ws, lemma_lex_order, lex_lt, string_from_chars};

verus! {

/// The words of a text: the runs of non-white-space characters, in order,
/// as `str::split_whitespace` yields them.
pub open spec fn words_of(s: Seq<char>) -> Seq<Seq<char>>
    decreases s.len(),
{
    if s.len() == 0 {
        seq![]
    } else {
        let w = words_of(s.drop_last());
        if is_ws(s.last()) {
            w
        } else if s.len() > 1 && !is_ws(s[s.len() - 2]) {
            w.update(w.len() - 1, w.last().push(s.last()))
        } else {
            w.push(seq![s.last()])
        }
    }
}

/// Splits characters into words at white space.
pub fn split_words(s: &[char]) -> (r: Vec<Vec<char>>)
    ensures
        char_vecs(r@) == words_of(s@),
{
    let n = s.len();
    let mut done: Vec<Vec<char>> = Vec::new();
    let mut cur: Vec<char> = Vec::new();
    let mut i: usize = 0;
    proof {
        assert(s@.take(0) =~= Seq::<char>::empty());
        assert(char_vecs(done@) =~= Seq::<Seq<char>>::empty());
    }
    while i < n
        invariant
            i <= n == s@.len(),
            char_vecs(done@) + (if cur@.len() > 0 { seq![cur@] } else { Seq::<Seq<char>>::empty() }) == words_of(s@.take(i as int)),
            cur@.len() > 0 <==> (i > 0 && !is_ws(s@[i - 1])),
        decreases n - i,
    {
        let c = s[i];
        let ghost t = s@.take(i + 1);
        let ghost before = words_of(s@.take(i as int));
        proof {
            assert(t.drop_last() =~= s@.take(i as int));
            assert(t.last() == c);
            if i > 0 {
                assert(t[t.len() - 2] == s@[i - 1]);
            }
        }
        if is_whitespace(c) {
            if cur.len() > 0 {
                let w = cur;
                done.push(w);
                cur = Vec::new();
                proof {
                    assert(char_vecs(done@) =~= before);
                }
            }
            proof {
                assert(char_vecs(done@) + Seq::<Seq<char>>::empty() =~= char_vecs(done@));
            }
        } else {
            let ghost had = cur@.len() > 0;
            let ghost old_cur = cur@;
            cur.push(c);
            proof {
                if had {
                    assert(before =~= char_vecs(done@).push(old_cur));
                    assert(char_vecs(done@) + seq![cur@] =~= before.update(before.len() - 1, before.last().push(c)));
                } else {
                    assert(old_cur =~= Seq::<char>::empty());
                    assert(cur@ =~= seq![c]);
                    assert(char_vecs(done@) + Seq::<Seq<char>>::empty() =~= char_vecs(done@));
                    assert(char_vecs(done@) + seq![cur@] =~= before.push(seq![c]));
                }
            }
        }
        i = i + 1;
    }
    proof {
        assert(s@.take(n as int) =~= s@);
    }
    if cur.len() > 0 {
        let ghost d = char_vecs(done@);
        done.push(cur);
        proof {
            assert(char_vecs(done@) =~= d + seq![done@.last()@]);
        }
    } else {
        proof {
            assert(char_vecs(done@) + Seq::<Seq<char>>::empty() =~= char_vecs(done@));
        }
    }
    done
}

/// Words joined with single spaces.
pub open spec fn join_words(ws: Seq<Seq<char>>) -> Seq<char>
    decreases ws.len(),
{
    if ws.len() == 0 {
        seq![]
    } else if ws.len() == 1 {
        ws[0]
    } else {
        join_words(ws.drop_last()) + seq![' '] + ws.last()
    }
}

/// Words `i .. i + k` joined with single spaces.
fn join_window(words: &Vec<Vec<char>>, i: usize, k: usize) -> (r: Vec<char>)
    requires
        k >= 1,
        i + k <= words@.len(),
    ensures
        r@ == join_words(char_vecs(words@).subrange(i as int, i + k)),
{
    let ghost v = char_vecs(words@);
    let n = words.len();
    let mut out: Vec<char> = Vec::new();
    extend_chars(&mut out, words[i].as_slice());
    let mut j: usize = i + 1;
    proof {
        assert(v.subrange(i as int, i + 1) =~= seq![v[i as int]]);
    }
    while j < i + k
        invariant
            i < j <= i + k <= words@.len(),
            n == words@.len(),
            v == char_vecs(words@),
            out@ == join_words(v.subrange(i as int, j as int)),
        decreases i + k - j,
    {
        out.push(' ');
        extend_chars(&mut out, words[j].as_slice());
        proof {
            let t = v.subrange(i as int, j + 1);
            assert(t.drop_last() =~= v.subrange(i as int, j as int));
            assert(t.last() == v[j as int]);
        }
        j = j + 1;
    }
    out
}

/// Entity `name` is mentioned at word `p`: the window of as many words as the
/// name has, starting there, joined with spaces, contains the name.
pub open spec fn mentioned_at(words: Seq<Seq<char>>, name: Seq<char>, p: int) -> bool {
    let k = words_of(name).len();
    0 <= p && p + k <= words.len() && contains_seq(join_words(words.subrange(p, p + k as int)), name)
}

/// Whether `name`, of `k` words, is mentioned at word `p`.
fn is_mentioned_at(words: &Vec<Vec<char>>, name: &Vec<char>, k: usize, p: usize) -> (b: bool)
    requires
        k == words_of(name@).len(),
        k >= 1,
        p <= words@.len(),
    ensures
        b == mentioned_at(char_vecs(words@), name@, p as int),
{
    if k <= words.len() - p {
        let window = join_window(words, p, k);
        find_chars(window.as_slice(), name.as_slice()).is_some()
    } else {
        false
    }
}

/// The mentions at word `p` of the first `e` entities, in entity order.
pub open spec fn mentions_row(words: Seq<Seq<char>>, names: Seq<Seq<char>>, p: int, e: int) -> Seq<(int, int)>
    decreases e,
{
    if e <= 0 {
        seq![]
    } else {
        mentions_row(words, names, p, e - 1) + if mentioned_at(words, names[e - 1], p) {
            seq![(p, e - 1)]
        } else {
            seq![]
        }
    }
}

/// The mentions (word position, entity index) at the first `p` word
/// positions: in text order, and at one position in entity order.
pub open spec fn mentions_upto(words: Seq<Seq<char>>, names: Seq<Seq<char>>, p: int) -> Seq<(int, int)>
    decreases p,
{
    if p <= 0 {
        seq![]
    } else {
        mentions_upto(words, names, p - 1) + mentions_row(words, names, p - 1, names.len() as int)
    }
}

/// Every mention of the entities in the words: (word position, entity
/// index), in text order and, at one position, in entity order.
pub open spec fn mentions(words: Seq<Seq<char>>, names: Seq<Seq<char>>) -> Seq<(int, int)> {
    mentions_upto(words, names, words.len() as int)
}

/// Plain values of (position, index) pairs.
pub open spec fn index_pairs(v: Seq<(usize, usize)>) -> Seq<(int, int)> {
    v.map_values(|t: (usize, usize)| (t.0 as int, t.1 as int))
}

/// Where each entity is mentioned among the words. Every name has at least
/// one word (a window of no words is refused).
pub fn mention_positions(words: &Vec<Vec<char>>, names: &Vec<Vec<char>>) -> (r: Vec<(usize, usize)>)
    requires
        forall|e: int| 0 <= e < names@.len() ==> #[trigger] words_of(names@[e]@).len() >= 1,
    ensures
        index_pairs(r@) == mentions(char_vecs(words@), char_vecs(names@)),
{
    let ghost wv = char_vecs(words@);
    let ghost nv = char_vecs(names@);
    let mut out: Vec<(usize, usize)> = Vec::new();
    let mut p: usize = 0;
    let mut counts: Vec<usize> = Vec::new();
    let mut e0: usize = 0;
    while e0 < names.len()
        invariant
            e0 <= names@.len(),
            counts@.len() == e0,
            forall|e: int| 0 <= e < e0 ==> counts@[e] == words_of(names@[e]@).len(),
        decreases names@.len() - e0,
    {
        let w = split_words(names[e0].as_slice());
        counts.push(w.len());
        e0 = e0 + 1;
    }
    while p < words.len()
        invariant
            p <= words@.len(),
            wv == char_vecs(words@),
            nv == char_vecs(names@),
            counts@.len() == names@.len(),
            forall|e: int| 0 <= e < names@.len() ==> counts@[e] == words_of(names@[e]@).len(),
            forall|e: int| 0 <= e < names@.len() ==> #[trigger] words_of(names@[e]@).len() >= 1,
            index_pairs(out@) == mentions_upto(wv, nv, p as int),
        decreases words@.len() - p,
    {
        let mut e: usize = 0;
        let ghost base = index_pairs(out@);
        while e < names.len()
            invariant
                p < words@.len(),
                e <= names@.len(),
                wv == char_vecs(words@),
                nv == char_vecs(names@),
                counts@.len() == names@.len(),
                forall|e: int| 0 <= e < names@.len() ==> counts@[e] == words_of(names@[e]@).len(),
                forall|e: int| 0 <= e < names@.len() ==> #[trigger] words_of(names@[e]@).len() >= 1,
                base == mentions_upto(wv, nv, p as int),
                index_pairs(out@) == base + mentions_row(wv, nv, p as int, e as int),
            decreases names@.len() - e,
        {
            let ghost before = index_pairs(out@);
            assert(nv[e as int] == names@[e as int]@);
            let hit = is_mentioned_at(words, &names[e], counts[e], p);
            if hit {
                out.push((p, e));
                proof {
                    assert(index_pairs(out@) =~= before.push((p as int, e as int)));
                }
            }
            proof {
                let row = mentions_row(wv, nv, p as int, e + 1);
                assert(row == mentions_row(wv, nv, p as int, e as int) + if mentioned_at(wv, nv[e as int], p as int) {
                    seq![(p as int, e as int)]
                } else {
                    seq![]
                });
                assert(index_pairs(out@) =~= base + row);
            }
            e = e + 1;
        }
        proof {
            assert(nv.len() == names@.len());
            assert(mentions_upto(wv, nv, p + 1) == mentions_upto(wv, nv, p as int) + mentions_row(wv, nv, p as int, nv.len() as int));
        }
        p = p + 1;
    }
    out
}


/// Two names in code-point order, the smaller first.
pub open spec fn ordered_pair(a: Seq<char>, b: Seq<char>) -> (Seq<char>, Seq<char>) {
    if lex_lt(a, b) {
        (a, b)
    } else {
        (b, a)
    }
}

/// Pair statistics: source, target, number of co-occurrences and the
/// smallest distance in words.
pub type PairStatView = (Seq<char>, Seq<char>, int, int);

/// Records one co-occurrence of `(a, b)` at distance `d`: the pair's count
/// goes up by one and its smallest distance down to `d`, or the pair is
/// added with count 1.
pub open spec fn stats_add(st: Seq<PairStatView>, a: Seq<char>, b: Seq<char>, d: int) -> Seq<PairStatView>
    decreases st.len(),
{
    if st.len() == 0 {
        seq![(a, b, 1, d)]
    } else if st[0].0 == a && st[0].1 == b {
        seq![(a, b, st[0].2 + 1, if d < st[0].3 { d } else { st[0].3 })] + st.drop_first()
    } else {
        seq![st[0]] + stats_add(st.drop_first(), a, b, d)
    }
}

/// The co-occurrence of mentions `i` and `j` (`i` before `j`): the pair of
/// names and the distance between them in words.
pub open spec fn pair_event(ms: Seq<(int, int)>, names: Seq<Seq<char>>, i: int, j: int) -> (Seq<char>, Seq<char>, int) {
    let (a, b) = ordered_pair(names[ms[i].1], names[ms[j].1]);
    (a, b, ms[j].0 - ms[i].0)
}

/// The co-occurrences of mention `i` with the later mentions before `j`
/// that lie within `w` words of it.
pub open spec fn pair_row(ms: Seq<(int, int)>, names: Seq<Seq<char>>, w: int, i: int, j: int) -> Seq<(Seq<char>, Seq<char>, int)>
    decreases j,
{
    if j <= 0 || j <= i + 1 {
        seq![]
    } else {
        pair_row(ms, names, w, i, j - 1) + if ms[j - 1].0 - ms[i].0 <= w {
            seq![pair_event(ms, names, i, j - 1)]
        } else {
            seq![]
        }
    }
}

/// The co-occurrences of the first `i` mentions with later ones.
pub open spec fn pair_events(ms: Seq<(int, int)>, names: Seq<Seq<char>>, w: int, i: int) -> Seq<(Seq<char>, Seq<char>, int)>
    decreases i,
{
    if i <= 0 {
        seq![]
    } else {
        pair_events(ms, names, w, i - 1) + pair_row(ms, names, w, i - 1, ms.len() as int)
    }
}

/// Statistics of a sequence of co-occurrences, each pair once, in the order
/// in which pairs first occur.
pub open spec fn stats_of(ev: Seq<(Seq<char>, Seq<char>, int)>) -> Seq<PairStatView>
    decreases ev.len(),
{
    if ev.len() == 0 {
        seq![]
    } else {
        let e = ev.last();
        stats_add(stats_of(ev.drop_last()), e.0, e.1, e.2)
    }
}

/// For mentions in text order, the statistics of every pair of entities
/// mentioned within `w` words of each other.
pub open spec fn cooccurrence_stats_spec(ms: Seq<(int, int)>, names: Seq<Seq<char>>, w: int) -> Seq<PairStatView> {
    stats_of(pair_events(ms, names, w, ms.len() as int))
}

/// How often two entities occur within the window, and how close.
#[derive(Debug)]
pub struct PairStat {
    pub source: String,
    pub target: String,
    pub count: usize,
    pub min_distance: usize,
}

/// Plain values of pair statistics.
pub open spec fn pair_stats_view(v: Seq<PairStat>) -> Seq<PairStatView> {
    v.map_values(|p: PairStat| (p.source@, p.target@, p.count as int, p.min_distance as int))
}

type StatRow = (Vec<char>, Vec<char>, usize, usize);

spec fn rows_view(v: Seq<StatRow>) -> Seq<PairStatView> {
    v.map_values(|p: StatRow| (p.0@, p.1@, p.2 as int, p.3 as int))
}

proof fn lemma_stats_add_found(st: Seq<PairStatView>, a: Seq<char>, b: Seq<char>, d: int, k: int)
    requires
        0 <= k < st.len(),
        st[k].0 == a && st[k].1 == b,
        forall|m: int| 0 <= m < k ==> !(st[m].0 == a && st[m].1 == b),
    ensures
        stats_add(st, a, b, d) == st.update(k, (a, b, st[k].2 + 1, if d < st[k].3 { d } else { st[k].3 })),
    decreases k,
{
    if k > 0 {
        assert(!(st[0].0 == a && st[0].1 == b));
        lemma_stats_add_found(st.drop_first(), a, b, d, k - 1);
        assert(seq![st[0]] + st.drop_first().update(k - 1, (a, b, st[k].2 + 1, if d < st[k].3 { d } else { st[k].3 }))
            =~= st.update(k, (a, b, st[k].2 + 1, if d < st[k].3 { d } else { st[k].3 })));
    } else {
        assert(seq![(a, b, st[0].2 + 1, if d < st[0].3 { d } else { st[0].3 })] + st.drop_first()
            =~= st.update(0, (a, b, st[0].2 + 1, if d < st[0].3 { d } else { st[0].3 })));
    }
}

proof fn lemma_stats_add_new(st: Seq<PairStatView>, a: Seq<char>, b: Seq<char>, d: int)
    requires
        forall|m: int| 0 <= m < st.len() ==> !(st[m].0 == a && st[m].1 == b),
    ensures
        stats_add(st, a, b, d) == st.push((a, b, 1, d)),
    decreases st.len(),
{
    if st.len() > 0 {
        assert(!(st[0].0 == a && st[0].1 == b));
        lemma_stats_add_new(st.drop_first(), a, b, d);
        assert(seq![st[0]] + st.drop_first().push((a, b, 1, d)) =~= st.push((a, b, 1, d)));
    }
}

/// Adding a co-occurrence raises no count above one more than before.
proof fn lemma_stats_add_counts(st: Seq<PairStatView>, a: Seq<char>, b: Seq<char>, d: int, m: int)
    requires
        0 <= m,
        forall|k: int| 0 <= k < st.len() ==> 1 <= #[trigger] st[k].2 <= m,
    ensures
        forall|k: int| 0 <= k < stats_add(st, a, b, d).len() ==> 1 <= #[trigger] stats_add(st, a, b, d)[k].2 <= m + 1,
    decreases st.len(),
{
    if st.len() > 0 && !(st[0].0 == a && st[0].1 == b) {
        let rest = st.drop_first();
        assert forall|k: int| 0 <= k < rest.len() implies 1 <= #[trigger] rest[k].2 <= m by {
            assert(rest[k] == st[k + 1]);
        }
        lemma_stats_add_counts(rest, a, b, d, m);
        let r = stats_add(st, a, b, d);
        assert forall|k: int| 0 <= k < r.len() implies 1 <= #[trigger] r[k].2 <= m + 1 by {
            if k > 0 {
                assert(r[k] == stats_add(rest, a, b, d)[k - 1]);
            }
        }
    } else if st.len() > 0 {
        let r = stats_add(st, a, b, d);
        assert forall|k: int| 0 <= k < r.len() implies 1 <= #[trigger] r[k].2 <= m + 1 by {
            if k > 0 {
                assert(r[k] == st[k]);
            }
        }
    }
}

/// No pair is counted more often than there are co-occurrences.
proof fn lemma_stats_counts(ev: Seq<(Seq<char>, Seq<char>, int)>)
    ensures
        forall|k: int| 0 <= k < stats_of(ev).len() ==> 1 <= #[trigger] stats_of(ev)[k].2 <= ev.len(),
    decreases ev.len(),
{
    if ev.len() > 0 {
        lemma_stats_counts(ev.drop_last());
        let e = ev.last();
        lemma_stats_add_counts(stats_of(ev.drop_last()), e.0, e.1, e.2, ev.len() - 1);
    }
}

proof fn lemma_pair_row_len(ms: Seq<(int, int)>, names: Seq<Seq<char>>, w: int, i: int, j: int)
    requires
        0 <= j,
    ensures
        pair_row(ms, names, w, i, j).len() <= j,
    decreases j,
{
    if j > 0 && j > i + 1 {
        lemma_pair_row_len(ms, names, w, i, j - 1);
    }
}

proof fn lemma_pair_events_len(ms: Seq<(int, int)>, names: Seq<Seq<char>>, w: int, i: int)
    requires
        0 <= i,
    ensures
        pair_events(ms, names, w, i).len() <= i * ms.len(),
    decreases i,
{
    if i > 0 {
        lemma_pair_events_len(ms, names, w, i - 1);
        lemma_pair_row_len(ms, names, w, i - 1, ms.len() as int);
        let n = ms.len() as int;
        assert((i - 1) * n + n == i * n) by (nonlinear_arith);
    }
}

/// Records one co-occurrence in the statistics.
fn add_event(st: &mut Vec<StatRow>, a: Vec<char>, b: Vec<char>, d: usize)
    requires
        forall|k: int| 0 <= k < old(st)@.len() ==> #[trigger] old(st)@[k].2 < usize::MAX,
    ensures
        rows_view(final(st)@) == stats_add(rows_view(old(st)@), a@, b@, d as int),
{
    let ghost sv = rows_view(st@);
    let mut k: usize = 0;
    while k < st.len()
        invariant
            k <= st@.len(),
            st@ == old(st)@,
            sv == rows_view(st@),
            forall|j: int| 0 <= j < st@.len() ==> #[trigger] st@[j].2 < usize::MAX,
            forall|m: int| 0 <= m < k ==> !(sv[m].0 == a@ && sv[m].1 == b@),
        decreases st@.len() - k,
    {
        if chars_eq(st[k].0.as_slice(), a.as_slice()) && chars_eq(st[k].1.as_slice(), b.as_slice()) {
            let c = st[k].2;
            let m = st[k].3;
            let nm = if d < m { d } else { m };
            proof {
                lemma_stats_add_found(sv, a@, b@, d as int, k as int);
            }
            st.set(k, (a, b, c + 1, nm));
            proof {
                assert(rows_view(st@) =~= sv.update(k as int, (a@, b@, sv[k as int].2 + 1, if d < sv[k as int].3 { d as int } else { sv[k as int].3 })));
            }
            return;
        }
        k = k + 1;
    }
    proof {
        lemma_stats_add_new(sv, a@, b@, d as int);
    }
    st.push((a, b, 1, d));
    proof {
        assert(rows_view(st@) =~= sv.push((a@, b@, 1, d as int)));
    }
}

fn copy_chars(v: &Vec<char>) -> (r: Vec<char>)
    ensures
        r@ == v@,
{
    let mut r: Vec<char> = Vec::new();
    extend_chars(&mut r, v.as_slice());
    r
}

/// For mentions in text order, how often and how close each pair of
/// entities occurs within `window` words; each pair once, its names in
/// code-point order, pairs in the order they first occur. The number of
/// mentions is such that its square fits in a `usize`, so no count can
/// overflow.
pub fn pair_statistics(ms: &Vec<(usize, usize)>, names: &Vec<Vec<char>>, window: usize) -> (r: Vec<PairStat>)
    requires
        forall|k: int| 0 <= k < ms@.len() ==> #[trigger] ms@[k].1 < names@.len(),
        forall|k1: int, k2: int| 0 <= k1 <= k2 < ms@.len() ==> #[trigger] ms@[k1].0 <= #[trigger] ms@[k2].0,
        ms@.len() * ms@.len() <= usize::MAX,
    ensures
        pair_stats_view(r@) == cooccurrence_stats_spec(index_pairs(ms@), char_vecs(names@), window as int),
{
    let ghost mv = index_pairs(ms@);
    let ghost nv = char_vecs(names@);
    let ghost w = window as int;
    let n = ms.len();
    let mut st: Vec<StatRow> = Vec::new();
    let mut i: usize = 0;
    while i < n
        invariant
            i <= n == ms@.len(),
            n * n <= usize::MAX,
            mv == index_pairs(ms@),
            nv == char_vecs(names@),
            w == window as int,
            forall|k: int| 0 <= k < ms@.len() ==> #[trigger] ms@[k].1 < names@.len(),
            forall|k1: int, k2: int| 0 <= k1 <= k2 < ms@.len() ==> #[trigger] ms@[k1].0 <= #[trigger] ms@[k2].0,
            rows_view(st@) == stats_of(pair_events(mv, nv, w, i as int)),
        decreases n - i,
    {
        let ghost base = pair_events(mv, nv, w, i as int);
        let mut j: usize = i + 1;
        while j < n
            invariant
                i < n == ms@.len(),
                i + 1 <= j <= n,
                n * n <= usize::MAX,
                mv == index_pairs(ms@),
                nv == char_vecs(names@),
                w == window as int,
                forall|k: int| 0 <= k < ms@.len() ==> #[trigger] ms@[k].1 < names@.len(),
                forall|k1: int, k2: int| 0 <= k1 <= k2 < ms@.len() ==> #[trigger] ms@[k1].0 <= #[trigger] ms@[k2].0,
                base == pair_events(mv, nv, w, i as int),
                rows_view(st@) == stats_of(base + pair_row(mv, nv, w, i as int, j as int)),
            decreases n - j,
        {
            let (p1, e1) = ms[i];
            let (p2, e2) = ms[j];
            assert(ms@[i as int].0 <= ms@[j as int].0);
            let d = p2 - p1;
            let ghost ev = base + pair_row(mv, nv, w, i as int, j as int);
            proof {
                assert(mv[i as int] == (p1 as int, e1 as int));
                assert(mv[j as int] == (p2 as int, e2 as int));
            }
            if d <= window {
                let (a, b) = if chars_lt(names[e1].as_slice(), names[e2].as_slice()) {
                    (copy_chars(&names[e1]), copy_chars(&names[e2]))
                } else {
                    (copy_chars(&names[e2]), copy_chars(&names[e1]))
                };
                proof {
                    assert(nv[e1 as int] == names@[e1 as int]@);
                    assert(nv[e2 as int] == names@[e2 as int]@);
                    assert(pair_event(mv, nv, i as int, j as int) == (a@, b@, d as int));
                    lemma_stats_counts(ev);
                    lemma_pair_events_len(mv, nv, w, i as int);
                    lemma_pair_row_len(mv, nv, w, i as int, j as int);
                    assert(i * n + j < n * n) by (nonlinear_arith)
                        requires
                            i < n,
                            j < n,
                    ;
                    assert(ev.len() <= i * n + j);
                    assert forall|k: int| 0 <= k < st@.len() implies #[trigger] st@[k].2 < usize::MAX by {
                        assert(rows_view(st@)[k].2 == st@[k].2);
                    }
                }
                add_event(&mut st, a, b, d);
                proof {
                    let row2 = pair_row(mv, nv, w, i as int, j + 1);
                    assert(row2 == pair_row(mv, nv, w, i as int, j as int) + seq![pair_event(mv, nv, i as int, j as int)]);
                    assert((base + row2).drop_last() =~= ev);
                    assert((base + row2).last() == pair_event(mv, nv, i as int, j as int));
                }
            } else {
                proof {
                    let row2 = pair_row(mv, nv, w, i as int, j + 1);
                    assert(row2 =~= pair_row(mv, nv, w, i as int, j as int));
                }
            }
            j = j + 1;
        }
        proof {
            assert(pair_events(mv, nv, w, i + 1) == base + pair_row(mv, nv, w, i as int, n as int));
        }
        i = i + 1;
    }
    let mut out: Vec<PairStat> = Vec::new();
    let mut k: usize = 0;
    while k < st.len()
        invariant
            k <= st@.len(),
            pair_stats_view(out@) =~= rows_view(st@).take(k as int),
        decreases st@.len() - k,
    {
        let row = &st[k];
        let stat = PairStat {
            source: string_from_chars(row.0.as_slice()),
            target: string_from_chars(row.1.as_slice()),
            count: row.2,
            min_distance: row.3,
        };
        let ghost before = out@;
        out.push(stat);
        proof {
            assert(pair_stats_view(out@) =~= pair_stats_view(before).push(rows_view(st@)[k as int]));
            assert(rows_view(st@).take(k + 1) =~= rows_view(st@).take(k as int).push(rows_view(st@)[k as int]));
        }
        k = k + 1;
    }
    proof {
        assert(rows_view(st@).take(st@.len() as int) =~= rows_view(st@));
    }
    out
}

/// Whether a pair is strong enough to keep: it occurs at least twice, or
/// within fewer than five words.
pub open spec fn keeps_pair_spec(count: int, min_distance: int) -> bool {
    count >= 2 || min_distance < 5
}

/// Whether a pair is strong enough to keep (see `keeps_pair_spec`).
pub fn keeps_pair(stat: &PairStat) -> (b: bool)
    ensures
        b == keeps_pair_spec(stat.count as int, stat.min_distance as int),
{
    stat.count >= 2 || stat.min_distance < 5
}


proof fn lemma_mentions_row_shape(words: Seq<Seq<char>>, names: Seq<Seq<char>>, p: int, e: int)
    requires
        0 <= e <= names.len(),
    ensures
        forall|k: int| 0 <= k < mentions_row(words, names, p, e).len() ==> (#[trigger] mentions_row(words, names, p, e)[k]).0
            == p && 0 <= mentions_row(words, names, p, e)[k].1 < names.len(),
    decreases e,
{
    if e > 0 {
        lemma_mentions_row_shape(words, names, p, e - 1);
        let r0 = mentions_row(words, names, p, e - 1);
        let r = mentions_row(words, names, p, e);
        assert forall|k: int| 0 <= k < r.len() implies (#[trigger] r[k]).0 == p && 0 <= r[k].1 < names.len() by {
            if k < r0.len() {
                assert(r[k] == r0[k]);
            }
        }
    }
}

/// Mentions come in text order, at positions before `p`, and name entities
/// that exist.
proof fn lemma_mentions_shape(words: Seq<Seq<char>>, names: Seq<Seq<char>>, p: int)
    requires
        0 <= p,
    ensures
        forall|k: int| 0 <= k < mentions_upto(words, names, p).len() ==> 0 <= (#[trigger] mentions_upto(words, names, p)[k]).0 < p
            && 0 <= mentions_upto(words, names, p)[k].1 < names.len(),
        forall|k1: int, k2: int| 0 <= k1 <= k2 < mentions_upto(words, names, p).len() ==> (#[trigger] mentions_upto(words, names, p)[k1]).0
            <= (#[trigger] mentions_upto(words, names, p)[k2]).0,
    decreases p,
{
    if p > 0 {
        lemma_mentions_shape(words, names, p - 1);
        lemma_mentions_row_shape(words, names, p - 1, names.len() as int);
        let m0 = mentions_upto(words, names, p - 1);
        let row = mentions_row(words, names, p - 1, names.len() as int);
        let m = mentions_upto(words, names, p);
        assert(m == m0 + row);
        assert forall|k: int| 0 <= k < m.len() implies 0 <= (#[trigger] m[k]).0 < p && 0 <= m[k].1 < names.len() by {
            if k < m0.len() {
                assert(m[k] == m0[k]);
            } else {
                assert(m[k] == row[k - m0.len()]);
            }
        }
        assert forall|k1: int, k2: int| 0 <= k1 <= k2 < m.len() implies (#[trigger] m[k1]).0 <= (#[trigger] m[k2]).0 by {
            if k2 < m0.len() {
                assert(m[k1] == m0[k1] && m[k2] == m0[k2]);
            } else if k1 < m0.len() {
                assert(m[k1] == m0[k1]);
                assert(m[k2] == row[k2 - m0.len()]);
            } else {
                assert(m[k1] == row[k1 - m0.len()]);
                assert(m[k2] == row[k2 - m0.len()]);
            }
        }
    }
}

/// Plain values of names.
pub open spec fn names_of(v: Seq<String>) -> Seq<Seq<char>> {
    v.map_values(|s: String| s@)
}

/// Entities co-occurring in a text: for every pair of entities mentioned
/// within `window` words of each other, how often and how close (see
/// `cooccurrence_stats_spec`). Every name has at least one word. `None` when
/// the text holds so many mentions that the number of their pairs does not
/// fit in a `usize`.
pub fn cooccurrences(text: &str, names: &Vec<String>, window: usize) -> (r: Option<Vec<PairStat>>)
    requires
        forall|e: int| 0 <= e < names@.len() ==> #[trigger] words_of(names@[e]@).len() >= 1,
    ensures
        ({
            let ms = mentions(words_of(text@), names_of(names@));
            match r {
                Some(v) => ms.len() * ms.len() <= usize::MAX && pair_stats_view(v@) == cooccurrence_stats_spec(
                    ms,
                    names_of(names@),
                    window as int,
                ),
                None => ms.len() * ms.len() > usize::MAX,
            }
        }),
{
    let chars = chars_of(text);
    let words = split_words(chars.as_slice());
    let mut nv: Vec<Vec<char>> = Vec::new();
    let mut e: usize = 0;
    while e < names.len()
        invariant
            e <= names@.len(),
            char_vecs(nv@) == names_of(names@).take(e as int),
        decreases names@.len() - e,
    {
        let c = chars_of(names[e].as_str());
        let ghost before = char_vecs(nv@);
        nv.push(c);
        proof {
            assert(char_vecs(nv@) =~= before.push(names@[e as int]@));
            assert(names_of(names@).take(e + 1) =~= names_of(names@).take(e as int).push(names@[e as int]@));
        }
        e = e + 1;
    }
    proof {
        assert(names_of(names@).take(names@.len() as int) =~= names_of(names@));
        assert forall|k: int| 0 <= k < nv@.len() implies #[trigger] words_of(nv@[k]@).len() >= 1 by {
            assert(char_vecs(nv@)[k] == nv@[k]@);
            assert(names_of(names@)[k] == names@[k]@);
        }
    }
    let ms = mention_positions(&words, &nv);
    let n = ms.len();
    if n > 0 && n > usize::MAX / n {
        proof {
            assert(n * n > usize::MAX) by (nonlinear_arith)
                requires
                    n > 0,
                    n > usize::MAX / n,
            ;
        }
        return None;
    }
    proof {
        if n > 0 {
            assert(n * n <= usize::MAX) by (nonlinear_arith)
                requires
                    n > 0,
                    n <= usize::MAX / n,
            ;
        }
        let wv = char_vecs(words@);
        lemma_mentions_shape(wv, char_vecs(nv@), wv.len() as int);
        let mv = index_pairs(ms@);
        assert forall|k: int| 0 <= k < ms@.len() implies #[trigger] ms@[k].1 < nv@.len() by {
            assert(mv[k] == (ms@[k].0 as int, ms@[k].1 as int));
        }
        assert forall|k1: int, k2: int| 0 <= k1 <= k2 < ms@.len() implies #[trigger] ms@[k1].0 <= #[trigger] ms@[k2].0 by {
            assert(mv[k1] == (ms@[k1].0 as int, ms@[k1].1 as int));
            assert(mv[k2] == (ms@[k2].0 as int, ms@[k2].1 as int));
        }
    }
    Some(pair_statistics(&ms, &nv, window))
}


/// A co-occurrence within the window, its names in code-point order.
pub open spec fn event_ok(e: (Seq<char>, Seq<char>, int), w: int) -> bool {
    &&& e.2 <= w
    &&& (e.0 == e.1 || lex_lt(e.0, e.1))
}

/// A statistics row: counted at least once, closest within the window, its
/// names in code-point order.
pub open spec fn stat_ok(r: PairStatView, w: int) -> bool {
    &&& 1 <= r.2
    &&& r.3 <= w
    &&& (r.0 == r.1 || lex_lt(r.0, r.1))
}

/// Statistics whose rows are all sound and name each pair once.
pub open spec fn stats_ok(st: Seq<PairStatView>, w: int) -> bool {
    &&& forall|k: int| 0 <= k < st.len() ==> stat_ok(#[trigger] st[k], w)
    &&& forall|k1: int, k2: int| 0 <= k1 < k2 < st.len() ==> !((#[trigger] st[k1]).0 == (#[trigger] st[k2]).0 && st[k1].1 == st[k2].1)
}

proof fn lemma_stats_add_ok(st: Seq<PairStatView>, a: Seq<char>, b: Seq<char>, d: int, w: int)
    requires
        stats_ok(st, w),
        event_ok((a, b, d), w),
    ensures
        stats_ok(stats_add(st, a, b, d), w),
        forall|k: int| 0 <= k < stats_add(st, a, b, d).len() ==> ((#[trigger] stats_add(st, a, b, d)[k]).0 == a && stats_add(st, a, b, d)[k].1 == b)
            || exists|m: int| 0 <= m < st.len() && st[m].0 == stats_add(st, a, b, d)[k].0 && st[m].1 == stats_add(st, a, b, d)[k].1,
    decreases st.len(),
{
    let r = stats_add(st, a, b, d);
    if st.len() == 0 {
        assert(stat_ok(r[0], w));
    } else if st[0].0 == a && st[0].1 == b {
        assert(stat_ok(st[0], w));
        assert forall|k: int| 0 <= k < r.len() implies stat_ok(#[trigger] r[k], w) by {
            if k > 0 {
                assert(r[k] == st[k]);
            }
        }
        assert forall|k1: int, k2: int| 0 <= k1 < k2 < r.len() implies !((#[trigger] r[k1]).0 == (#[trigger] r[k2]).0 && r[k1].1 == r[k2].1) by {
            assert(r[k2] == st[k2]);
            if k1 > 0 {
                assert(r[k1] == st[k1]);
            }
        }
        assert forall|k: int| 0 <= k < r.len() implies ((#[trigger] r[k]).0 == a && r[k].1 == b) || exists|m: int| 0 <= m < st.len() && st[m].0 == r[k].0 && st[m].1 == r[k].1 by {
            if k > 0 {
                assert(r[k] == st[k]);
            }
        }
    } else {
        let rest = st.drop_first();
        assert(stats_ok(rest, w)) by {
            assert forall|k: int| 0 <= k < rest.len() implies stat_ok(#[trigger] rest[k], w) by {
                assert(rest[k] == st[k + 1]);
            }
            assert forall|k1: int, k2: int| 0 <= k1 < k2 < rest.len() implies !((#[trigger] rest[k1]).0 == (#[trigger] rest[k2]).0 && rest[k1].1 == rest[k2].1) by {
                assert(rest[k1] == st[k1 + 1] && rest[k2] == st[k2 + 1]);
            }
        }
        lemma_stats_add_ok(rest, a, b, d, w);
        let t = stats_add(rest, a, b, d);
        assert(r == seq![st[0]] + t);
        assert(stat_ok(st[0], w));
        assert forall|k: int| 0 <= k < r.len() implies stat_ok(#[trigger] r[k], w) by {
            if k > 0 {
                assert(r[k] == t[k - 1]);
            }
        }
        assert forall|k: int| 0 <= k < r.len() implies ((#[trigger] r[k]).0 == a && r[k].1 == b) || exists|m: int| 0 <= m < st.len() && st[m].0 == r[k].0 && st[m].1 == r[k].1 by {
            if k > 0 {
                assert(r[k] == t[k - 1]);
                if !(t[k - 1].0 == a && t[k - 1].1 == b) {
                    let m = choose|m: int| 0 <= m < rest.len() && rest[m].0 == t[k - 1].0 && rest[m].1 == t[k - 1].1;
                    assert(st[m + 1] == rest[m]);
                }
            } else {
                assert(st[0] == r[0]);
            }
        }
        assert forall|k1: int, k2: int| 0 <= k1 < k2 < r.len() implies !((#[trigger] r[k1]).0 == (#[trigger] r[k2]).0 && r[k1].1 == r[k2].1) by {
            assert(r[k2] == t[k2 - 1]);
            if k1 > 0 {
                assert(r[k1] == t[k1 - 1]);
            } else {
                if r[k2].0 == st[0].0 && r[k2].1 == st[0].1 {
                    if !(t[k2 - 1].0 == a && t[k2 - 1].1 == b) {
                        let m = choose|m: int| 0 <= m < rest.len() && rest[m].0 == t[k2 - 1].0 && rest[m].1 == t[k2 - 1].1;
                        assert(st[m + 1] == rest[m]);
                    }
                }
            }
        }
    }
}

proof fn lemma_pair_row_ok(ms: Seq<(int, int)>, names: Seq<Seq<char>>, w: int, i: int, j: int)
    ensures
        forall|k: int| 0 <= k < pair_row(ms, names, w, i, j).len() ==> event_ok(#[trigger] pair_row(ms, names, w, i, j)[k], w),
    decreases j,
{
    if j > 0 && j > i + 1 {
        lemma_pair_row_ok(ms, names, w, i, j - 1);
        let r0 = pair_row(ms, names, w, i, j - 1);
        let r = pair_row(ms, names, w, i, j);
        let a = names[ms[i].1];
        let b = names[ms[j - 1].1];
        lemma_lex_order(a, b, a);
        assert forall|k: int| 0 <= k < r.len() implies event_ok(#[trigger] r[k], w) by {
            if k < r0.len() {
                assert(r[k] == r0[k]);
            }
        }
    }
}

proof fn lemma_pair_events_ok(ms: Seq<(int, int)>, names: Seq<Seq<char>>, w: int, i: int)
    ensures
        forall|k: int| 0 <= k < pair_events(ms, names, w, i).len() ==> event_ok(#[trigger] pair_events(ms, names, w, i)[k], w),
    decreases i,
{
    if i > 0 {
        lemma_pair_events_ok(ms, names, w, i - 1);
        lemma_pair_row_ok(ms, names, w, i - 1, ms.len() as int);
        let e0 = pair_events(ms, names, w, i - 1);
        let row = pair_row(ms, names, w, i - 1, ms.len() as int);
        let e = pair_events(ms, names, w, i);
        assert forall|k: int| 0 <= k < e.len() implies event_ok(#[trigger] e[k], w) by {
            if k < e0.len() {
                assert(e[k] == e0[k]);
            } else {
                assert(e[k] == row[k - e0.len()]);
            }
        }
    }
}

proof fn lemma_stats_of_ok(ev: Seq<(Seq<char>, Seq<char>, int)>, w: int)
    requires
        forall|k: int| 0 <= k < ev.len() ==> event_ok(#[trigger] ev[k], w),
    ensures
        stats_ok(stats_of(ev), w),
    decreases ev.len(),
{
    if ev.len() > 0 {
        let init = ev.drop_last();
        assert forall|k: int| 0 <= k < init.len() implies event_ok(#[trigger] init[k], w) by {
            assert(init[k] == ev[k]);
        }
        lemma_stats_of_ok(init, w);
        assert(event_ok(ev[ev.len() - 1], w));
        lemma_stats_add_ok(stats_of(init), ev.last().0, ev.last().1, ev.last().2, w);
    }
}

/// Co-occurrence statistics name each pair of entities once, with its names
/// in code-point order, a count of at least one and a smallest distance
/// within the window.
pub proof fn lemma_cooccurrence_stats_shape(ms: Seq<(int, int)>, names: Seq<Seq<char>>, w: int)
    ensures
        stats_ok(cooccurrence_stats_spec(ms, names, w), w),
{
    lemma_pair_events_ok(ms, names, w, ms.len() as int);
    lemma_stats_of_ok(pair_events(ms, names, w, ms.len() as int), w);
}

} // verus!
