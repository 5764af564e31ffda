//! Knowledge-graph construction: chunking of slice text for extraction and
//! grounding of extracted entities and relations in that text.
use vstd::prelude::*;

use crate::text::{
    all_ws, chars_of, char_utf8_len, contains_seq, find_chars, first_occurrence, is_whitespace,
    lemma_utf8_len_concat, lemma_utf8_len_take_step, slice_chars, string_from_chars, trim,
    trimmed, utf8_len,
};

verus! {

/// Characters per extraction chunk.
pub const CHUNK_CHARS: usize = 2000;

/// Characters shared by consecutive chunks.
pub const CHUNK_OVERLAP: usize = 100;

/// Chunks of `cs` starting at character `start`: windows of `CHUNK_CHARS`
/// characters that overlap by `CHUNK_OVERLAP`; a blank window yields no chunk.
/// Each chunk is paired with the UTF-8 byte offset of its first character.
pub open spec fn chunks_from(cs: Seq<char>, start: int) -> Seq<(nat, Seq<char>)>
    decreases cs.len() - start,
{
    if start < 0 || start >= cs.len() {
        seq![]
    } else {
        let end = if start + CHUNK_CHARS < cs.len() {
            start + CHUNK_CHARS
        } else {
            cs.len() as int
        };
        let content = cs.subrange(start, end);
        let here: Seq<(nat, Seq<char>)> = if all_ws(content) {
            seq![]
        } else {
            seq![(utf8_len(cs.take(start)), content)]
        };
        if end == cs.len() {
            here
        } else {
            here + chunks_from(cs, end - CHUNK_OVERLAP)
        }
    }
}

/// Views of the chunks that `extraction_chunks` returns.
pub open spec fn chunks_view(v: Seq<(usize, String)>) -> Seq<(nat, Seq<char>)> {
    v.map_values(|c: (usize, String)| (c.0 as nat, c.1@))
}

/// Splits a slice's text, however long, into overlapping chunks for
/// extraction; overlap keeps relationships across chunk boundaries.
pub fn extraction_chunks(text: &str) -> (r: Vec<(usize, String)>)
    requires
        utf8_len(text@) <= usize::MAX,
    ensures
        chunks_view(r@) == chunks_from(text@, 0),
{
    let cs = chars_of(text);
    let n = cs.len();
    let bounds = byte_boundaries(cs.as_slice());
    let mut chunks: Vec<(usize, String)> = Vec::new();
    if n == 0 {
        assert(chunks_view(chunks@) =~= chunks_from(cs@, 0));
        return chunks;
    }
    let mut start: usize = 0;
    loop
        invariant_except_break
            start < n == cs@.len(),
            cs@ == text@,
            bounds@.len() == n + 1,
            forall|i: int| 0 <= i <= n ==> #[trigger] bounds@[i] == utf8_len(cs@.take(i)),
            chunks_from(cs@, 0) == chunks_view(chunks@) + chunks_from(cs@, start as int),
        ensures
            chunks_from(text@, 0) == chunks_view(chunks@),
        decreases n - start,
    {
        let end = if n - start > CHUNK_CHARS {
            start + CHUNK_CHARS
        } else {
            n
        };
        let content = slice_chars(cs.as_slice(), start, end);
        let blank = all_blank(content.as_slice());
        let ghost before = chunks_view(chunks@);
        if !blank {
            let s = string_from_chars(content.as_slice());
            chunks.push((bounds[start], s));
        }
        proof {
            let here: Seq<(nat, Seq<char>)> = if all_ws(content@) {
                seq![]
            } else {
                seq![(utf8_len(cs@.take(start as int)), content@)]
            };
            assert(chunks_view(chunks@) =~= before + here);
        }
        if end == n {
            proof {
                assert(chunks_view(chunks@) + Seq::<(nat, Seq<char>)>::empty() =~= chunks_view(chunks@));
            }
            break ;
        }
        proof {
            let here: Seq<(nat, Seq<char>)> = if all_ws(content@) {
                seq![]
            } else {
                seq![(utf8_len(cs@.take(start as int)), content@)]
            };
            assert(before + (here + chunks_from(cs@, end - CHUNK_OVERLAP)) =~= (before + here)
                + chunks_from(cs@, end - CHUNK_OVERLAP));
        }
        start = end - CHUNK_OVERLAP;
    }
    chunks
}

/// Whether every character is white space (`trim().is_empty()`).
fn all_blank(v: &[char]) -> (b: bool)
    ensures
        b == all_ws(v@),
{
    let n = v.len();
    let mut i: usize = 0;
    while i < n
        invariant
            i <= n == v@.len(),
            forall|k: int| 0 <= k < i ==> crate::text::is_ws(#[trigger] v@[k]),
        decreases n - i,
    {
        if !is_whitespace(v[i]) {
            return false;
        }
        i = i + 1;
    }
    true
}

/// `b[i]` is the UTF-8 byte offset of character `i`; `b[n]` is the byte length.
fn byte_boundaries(cs: &[char]) -> (b: Vec<usize>)
    requires
        utf8_len(cs@) <= usize::MAX,
    ensures
        b@.len() == cs@.len() + 1,
        forall|i: int| 0 <= i <= cs@.len() ==> #[trigger] b@[i] == utf8_len(cs@.take(i)),
{
    let n = cs.len();
    let mut b: Vec<usize> = Vec::new();
    let mut off: usize = 0;
    let mut i: usize = 0;
    proof {
        assert(cs@.take(0) =~= Seq::<char>::empty());
        assert(utf8_len(Seq::<char>::empty()) == 0) by {
            assert(vstd::utf8::encode_utf8(Seq::<char>::empty()) =~= Seq::<u8>::empty());
        }
    }
    while i < n
        invariant
            i <= n == cs@.len(),
            utf8_len(cs@) <= usize::MAX,
            b@.len() == i,
            off == utf8_len(cs@.take(i as int)),
            forall|k: int| 0 <= k < i ==> #[trigger] b@[k] == utf8_len(cs@.take(k)),
        decreases n - i,
    {
        b.push(off);
        proof {
            lemma_utf8_len_take_step(cs@, i as int);
            lemma_utf8_len_concat(cs@.take(i + 1), cs@.skip(i + 1));
            assert(cs@.take(i + 1) + cs@.skip(i + 1) =~= cs@);
        }
        off = off + char_utf8_len(cs[i]);
        i = i + 1;
    }
    b.push(off);
    assert(cs@.take(n as int) =~= cs@.take(n as int));
    b
}

/// `ch` is the window of `cs` that starts at character `j`, paired with the
/// byte offset of `j`.
pub open spec fn is_window_of(cs: Seq<char>, ch: (nat, Seq<char>), j: int) -> bool {
    &&& 0 <= j
    &&& j + ch.1.len() <= cs.len()
    &&& ch.0 == utf8_len(cs.take(j))
    &&& ch.1 == cs.subrange(j, j + ch.1.len())
}

proof fn lemma_chunk_window(cs: Seq<char>, start: int, k: int) -> (j: int)
    requires
        0 <= k < chunks_from(cs, start).len(),
    ensures
        start <= j,
        is_window_of(cs, chunks_from(cs, start)[k], j),
        !all_ws(chunks_from(cs, start)[k].1),
        0 < chunks_from(cs, start)[k].1.len() <= CHUNK_CHARS,
    decreases cs.len() - start,
{
    let end = if start + CHUNK_CHARS < cs.len() {
        start + CHUNK_CHARS
    } else {
        cs.len() as int
    };
    let content = cs.subrange(start, end);
    let here: Seq<(nat, Seq<char>)> = if all_ws(content) {
        seq![]
    } else {
        seq![(utf8_len(cs.take(start)), content)]
    };
    let all = chunks_from(cs, start);
    if k < here.len() {
        if end == cs.len() {
            assert(all == here);
        } else {
            assert(all == here + chunks_from(cs, end - CHUNK_OVERLAP));
        }
        assert(all[k] == here[k]);
        assert(content.len() > 0);
        assert(is_window_of(cs, all[k], start));
        start
    } else {
        assert(end != cs.len());
        let rest = chunks_from(cs, end - CHUNK_OVERLAP);
        assert(all == here + rest);
        assert(all[k] == rest[k - here.len()]);
        let j = lemma_chunk_window(cs, end - CHUNK_OVERLAP, k - here.len());
        j
    }
}

/// Offsets are UTF-8 byte offsets into the original text: every chunk is
/// exactly the text between its offset and its offset plus its own byte
/// length, holds at most `CHUNK_CHARS` characters, and is not blank.
pub proof fn lemma_chunk_bytes(text: Seq<char>, k: int)
    requires
        0 <= k < chunks_from(text, 0).len(),
    ensures
        ({
            let ch = chunks_from(text, 0)[k];
            &&& ch.0 + utf8_len(ch.1) <= utf8_len(text)
            &&& vstd::utf8::encode_utf8(text).subrange(ch.0 as int, (ch.0 + utf8_len(ch.1)) as int)
                == vstd::utf8::encode_utf8(ch.1)
            &&& 0 < ch.1.len() <= CHUNK_CHARS
            &&& !all_ws(ch.1)
        }),
{
    let ch = chunks_from(text, 0)[k];
    let j = lemma_chunk_window(text, 0, k);
    let e = j + ch.1.len();
    let a = text.take(j);
    let c = text.subrange(j, e);
    let z = text.subrange(e, text.len() as int);
    assert(text =~= a + c + z);
    crate::text::lemma_encode_utf8_concat(a + c, z);
    crate::text::lemma_encode_utf8_concat(a, c);
    let ea = vstd::utf8::encode_utf8(a);
    let ec = vstd::utf8::encode_utf8(c);
    let ez = vstd::utf8::encode_utf8(z);
    assert(vstd::utf8::encode_utf8(text) == ea + ec + ez);
    assert((ea + ec + ez).subrange(ea.len() as int, (ea.len() + ec.len()) as int) =~= ec);
}

proof fn lemma_chunks_cover_from(text: Seq<char>, start: int, i: int)
    requires
        0 <= start <= i < text.len(),
        !crate::text::is_ws(text[i]),
    ensures
        exists|k: int, j: int|
            #![trigger is_window_of(text, chunks_from(text, start)[k], j)]
            0 <= k < chunks_from(text, start).len() && is_window_of(
                text,
                chunks_from(text, start)[k],
                j,
            ) && j <= i < j + chunks_from(text, start)[k].1.len(),
    decreases text.len() - start,
{
    let end = if start + CHUNK_CHARS < text.len() {
        start + CHUNK_CHARS
    } else {
        text.len() as int
    };
    let content = text.subrange(start, end);
    let here: Seq<(nat, Seq<char>)> = if all_ws(content) {
        seq![]
    } else {
        seq![(utf8_len(text.take(start)), content)]
    };
    let all = chunks_from(text, start);
    if i < end {
        assert(content[i - start] == text[i]);
        assert(!all_ws(content));
        assert(all[0] == here[0]);
        assert(is_window_of(text, all[0], start));
    } else {
        let next = end - CHUNK_OVERLAP;
        lemma_chunks_cover_from(text, next, i);
        let rest = chunks_from(text, next);
        assert(all == here + rest);
        let (k, j) = choose|k: int, j: int|
            #![trigger is_window_of(text, rest[k], j)]
            0 <= k < rest.len() && is_window_of(text, rest[k], j) && j <= i < j + rest[k].1.len();
        assert(all[k + here.len()] == rest[k]);
        assert(is_window_of(text, all[k + here.len()], j));
    }
}

/// No text is lost: every character that is not white space, the tail of a
/// long text included, lies inside some chunk.
pub proof fn lemma_chunks_cover(text: Seq<char>, i: int)
    requires
        0 <= i < text.len(),
        !crate::text::is_ws(text[i]),
    ensures
        exists|k: int, j: int|
            #![trigger is_window_of(text, chunks_from(text, 0)[k], j)]
            0 <= k < chunks_from(text, 0).len() && is_window_of(text, chunks_from(text, 0)[k], j)
                && j <= i < j + chunks_from(text, 0)[k].1.len(),
{
    lemma_chunks_cover_from(text, 0, i);
}

/// The graph that extraction results are written into.
pub struct KnowledgeGraph;

/// Characters of context kept before a mention (the mention's own
/// preceding character counted in).
pub const CONTEXT_BEFORE: usize = 101;

/// Characters of context kept after a mention.
pub const CONTEXT_AFTER: usize = 100;

/// Where an extracted entity is found in its chunk: the trimmed name and
/// kind, the mention's byte range in the slice, and the text around it.
#[derive(Debug, Clone)]
pub struct EntityAnchor {
    pub name: String,
    pub kind: String,
    pub start_offset: usize,
    pub end_offset: usize,
    pub context: String,
}

/// The anchor of an entity named `name` of kind `kind` in chunk text `text`
/// that starts at byte `offset` of its slice: none when the trimmed name or
/// kind is empty or the name does not occur in the text; otherwise its first
/// occurrence, with up to `CONTEXT_BEFORE` characters before it and
/// `CONTEXT_AFTER` after it as context.
pub open spec fn anchor_of(text: Seq<char>, offset: nat, name: Seq<char>, kind: Seq<char>)
    -> Option<(Seq<char>, Seq<char>, nat, nat, Seq<char>)>
{
    let n = trim(name);
    let k = trim(kind);
    if n.len() == 0 || k.len() == 0 {
        None
    } else {
        match first_occurrence(text, n) {
            None => None,
            Some(p) => {
                let q = p + n.len();
                let cs = if p >= CONTEXT_BEFORE { p - CONTEXT_BEFORE } else { 0 };
                let ce = if q + CONTEXT_AFTER <= text.len() { q + CONTEXT_AFTER } else { text.len() as int };
                Some((n, k, offset + utf8_len(text.take(p)), offset + utf8_len(text.take(q)), text.subrange(cs, ce)))
            },
        }
    }
}

/// The plain values of an anchor.
pub open spec fn anchor_view(a: EntityAnchor) -> (Seq<char>, Seq<char>, nat, nat, Seq<char>) {
    (a.name@, a.kind@, a.start_offset as nat, a.end_offset as nat, a.context@)
}

/// Grounds an extracted entity in the chunk text it came from: only names
/// that occur in the text are kept, so no unsupported claim is stored.
pub fn anchor_entity(text: &str, offset: usize, name: &str, kind: &str) -> (r: Option<EntityAnchor>)
    requires
        offset + utf8_len(text@) <= usize::MAX,
    ensures
        match r {
            Some(a) => anchor_of(text@, offset as nat, name@, kind@) == Some(anchor_view(a)),
            None => anchor_of(text@, offset as nat, name@, kind@) is None,
        },
{
    let n = trimmed(name);
    let k = trimmed(kind);
    let ns = chars_of(n.as_str());
    let ks = chars_of(k.as_str());
    if ns.len() == 0 || ks.len() == 0 {
        return None;
    }
    let cs = chars_of(text);
    let found = find_chars(cs.as_slice(), ns.as_slice());
    match found {
        None => None,
        Some(p) => {
            let len = ns.len();
            let total = cs.len();
            proof {
                crate::text::lemma_occurs_of_first(cs@, ns@);
                assert(first_occurrence(cs@, ns@) == Some(p as int));
                assert(crate::text::occurs_at(cs@, ns@, p as int));
                assert(p + len <= cs@.len());
            }
            let q = p + len;
            let bounds = byte_boundaries(cs.as_slice());
            let c_start = if p >= CONTEXT_BEFORE { p - CONTEXT_BEFORE } else { 0 };
            let c_end = if cs.len() - q >= CONTEXT_AFTER { q + CONTEXT_AFTER } else { cs.len() };
            let ctx = slice_chars(cs.as_slice(), c_start, c_end);
            proof {
                assert(bounds@[p as int] == utf8_len(cs@.take(p as int)));
                assert(bounds@[q as int] == utf8_len(cs@.take(q as int)));
                assert(utf8_len(cs@.take(p as int)) <= utf8_len(cs@)) by {
                    lemma_utf8_len_concat(cs@.take(p as int), cs@.skip(p as int));
                    assert(cs@.take(p as int) + cs@.skip(p as int) =~= cs@);
                }
                assert(utf8_len(cs@.take(q as int)) <= utf8_len(cs@)) by {
                    lemma_utf8_len_concat(cs@.take(q as int), cs@.skip(q as int));
                    assert(cs@.take(q as int) + cs@.skip(q as int) =~= cs@);
                }
            }
            let a = EntityAnchor {
                name: n,
                kind: k,
                start_offset: offset + bounds[p],
                end_offset: offset + bounds[q],
                context: string_from_chars(ctx.as_slice()),
            };
            Some(a)
        },
    }
}

/// The identifier that a relation endpoint named `name`, of kind `kind`
/// where one is given, resolves to among the anchored `(name, kind, id)`
/// triples of a chunk: the one identifier matching name and kind (both
/// trimmed), or none where no identifier or several match.
pub open spec fn resolved_endpoint(anchored: Seq<(Seq<char>, Seq<char>, i64)>, name: Seq<char>, kind: Option<Seq<char>>) -> Option<i64> {
    if exists|i: int| 0 <= i < anchored.len() && endpoint_matches(#[trigger] anchored[i], name, kind)
        && forall|j: int| 0 <= j < anchored.len() && endpoint_matches(#[trigger] anchored[j], name, kind) ==> anchored[j].2 == anchored[i].2 {
        let i = choose|i: int| 0 <= i < anchored.len() && endpoint_matches(#[trigger] anchored[i], name, kind)
            && forall|j: int| 0 <= j < anchored.len() && endpoint_matches(#[trigger] anchored[j], name, kind) ==> anchored[j].2 == anchored[i].2;
        Some(anchored[i].2)
    } else {
        None
    }
}

/// An anchored `(name, kind, id)` triple matches an endpoint's trimmed name
/// and, where one is given, its trimmed kind.
pub open spec fn endpoint_matches(e: (Seq<char>, Seq<char>, i64), name: Seq<char>, kind: Option<Seq<char>>) -> bool {
    e.0 == trim(name) && match kind {
        Some(k) => trim(k) == e.1,
        None => true,
    }
}

/// Plain values of anchored triples.
pub open spec fn anchored_view(v: Seq<(String, String, i64)>) -> Seq<(Seq<char>, Seq<char>, i64)> {
    v.map_values(|e: (String, String, i64)| (e.0@, e.1@, e.2))
}

/// Whether an anchored triple matches an endpoint whose name and kind were
/// already trimmed.
fn entry_matches(e: &(String, String, i64), n: &String, k: &Option<String>, Ghost(name): Ghost<Seq<char>>, Ghost(kind): Ghost<Option<Seq<char>>>) -> (b: bool)
    requires
        n@ == trim(name),
        match k { Some(s) => kind is Some && s@ == trim(kind->0), None => kind is None },
    ensures
        b == endpoint_matches((e.0@, e.1@, e.2), name, kind),
{
    crate::text::str_eq(e.0.as_str(), n.as_str()) && match k {
        Some(s) => crate::text::str_eq(s.as_str(), e.1.as_str()),
        None => true,
    }
}

/// Resolves a relation endpoint to a node: only an unambiguous match is
/// accepted, so a relation never attaches to the wrong one of two
/// same-named entities.
pub fn resolve_endpoint(anchored: &Vec<(String, String, i64)>, name: &str, kind: Option<&str>) -> (r: Option<i64>)
    ensures
        r == resolved_endpoint(anchored_view(anchored@), name@, match kind { Some(k) => Some(k@), None => None }),
{
    let ghost av = anchored_view(anchored@);
    let ghost kv: Option<Seq<char>> = match kind { Some(k) => Some(k@), None => None };
    let ghost nm = name@;
    let n = trimmed(name);
    let k: Option<String> = match kind {
        Some(s) => Some(trimmed(s)),
        None => None,
    };
    let mut found: Option<i64> = None;
    let mut i: usize = 0;
    while i < anchored.len()
        invariant
            i <= anchored@.len() == av.len(),
            av == anchored_view(anchored@),
            nm == name@,
            kv == (match kind { Some(k) => Some(k@), None => None::<Seq<char>> }),
            n@ == trim(nm),
            match k { Some(s) => kv is Some && s@ == trim(kv->0), None => kv is None },
            match found {
                None => forall|j: int| 0 <= j < i ==> !endpoint_matches(#[trigger] av[j], nm, kv),
                Some(x) => (exists|j: int| 0 <= j < i && endpoint_matches(#[trigger] av[j], nm, kv))
                    && forall|j: int| 0 <= j < i && endpoint_matches(#[trigger] av[j], nm, kv) ==> av[j].2 == x,
            },
        decreases anchored.len() - i,
    {
        let e = &anchored[i];
        let m = entry_matches(e, &n, &k, Ghost(nm), Ghost(kv));
        assert(av[i as int] == (e.0@, e.1@, e.2));
        if m {
            match found {
                None => {
                    found = Some(e.2);
                },
                Some(x) => {
                    if x != e.2 {
                        proof {
                            lemma_ambiguous_endpoint(av, nm, kv, i as int, x);
                        }
                        return None;
                    }
                },
            }
        }
        i = i + 1;
    }
    proof {
        match found {
            None => {},
            Some(x) => {
                let j = choose|j: int| 0 <= j < av.len() && endpoint_matches(#[trigger] av[j], nm, kv);
                assert(av[j].2 == x);
            },
        }
    }
    found
}

/// Two matches with different identifiers leave an endpoint unresolved.
proof fn lemma_ambiguous_endpoint(av: Seq<(Seq<char>, Seq<char>, i64)>, nm: Seq<char>, kv: Option<Seq<char>>, i: int, x: i64)
    requires
        0 <= i < av.len(),
        endpoint_matches(av[i], nm, kv),
        av[i].2 != x,
        exists|j: int| 0 <= j < i && endpoint_matches(#[trigger] av[j], nm, kv),
        forall|j: int| 0 <= j < i && endpoint_matches(#[trigger] av[j], nm, kv) ==> av[j].2 == x,
    ensures
        resolved_endpoint(av, nm, kv) is None,
{
    let j0 = choose|j: int| 0 <= j < i && endpoint_matches(#[trigger] av[j], nm, kv);
    assert forall|t: int| 0 <= t < av.len() && endpoint_matches(#[trigger] av[t], nm, kv)
        implies !(forall|j: int| 0 <= j < av.len() && endpoint_matches(#[trigger] av[j], nm, kv) ==> av[j].2 == av[t].2) by {
        if av[t].2 == x {
            assert(endpoint_matches(av[i], nm, kv) && av[i].2 != av[t].2);
        } else {
            assert(endpoint_matches(av[j0], nm, kv) && av[j0].2 != av[t].2);
        }
    }
}

/// Whether a relation's quoted evidence is usable: present, not blank, and
/// found verbatim in the chunk text.
pub open spec fn evidence_grounded(text: Seq<char>, evidence: Option<Seq<char>>) -> bool {
    match evidence {
        Some(e) => !all_ws(e) && contains_seq(text, e),
        None => false,
    }
}

/// Only quotations checked against the source text can serve as relation
/// evidence.
pub fn is_evidence_grounded(text: &str, evidence: Option<&str>) -> (b: bool)
    ensures
        b == evidence_grounded(text@, match evidence { Some(e) => Some(e@), None => None }),
{
    match evidence {
        None => false,
        Some(e) => {
            if crate::text::is_blank(e) {
                return false;
            }
            let cs = chars_of(text);
            let es = chars_of(e);
            let r = find_chars(cs.as_slice(), es.as_slice());
            proof {
                if contains_seq(cs@, es@) {
                    crate::text::lemma_occurs_of_first(cs@, es@);
                }
            }
            r.is_some()
        },
    }
}


/// A grounded entity really occurs in its chunk: the mention is the first
/// occurrence of the trimmed name, its byte range spans exactly the name's
/// encoding, and the stored context is a piece of the chunk text that holds
/// the mention.
pub proof fn lemma_anchor_grounded(text: Seq<char>, offset: nat, name: Seq<char>, kind: Seq<char>)
    requires
        anchor_of(text, offset, name, kind) is Some,
    ensures
        ({
            let (n, k, start, end, context) = anchor_of(text, offset, name, kind)->0;
            &&& n == trim(name) && n.len() > 0
            &&& k == trim(kind) && k.len() > 0
            &&& contains_seq(text, n)
            &&& end == start + utf8_len(n)
            &&& contains_seq(context, n)
            &&& contains_seq(text, context)
        }),
{
    let n = trim(name);
    crate::text::lemma_occurs_of_first(text, n);
    let p = first_occurrence(text, n)->0;
    let q = p + n.len();
    let cs = if p >= CONTEXT_BEFORE { p - CONTEXT_BEFORE } else { 0 };
    let ce = if q + CONTEXT_AFTER <= text.len() { q + CONTEXT_AFTER } else { text.len() as int };
    let ctx = text.subrange(cs, ce);
    assert(crate::text::occurs_at(text, n, p));
    assert(text.take(q) =~= text.take(p) + n);
    lemma_utf8_len_concat(text.take(p), n);
    assert(ctx.subrange(p - cs, p - cs + n.len()) =~= n);
    assert(crate::text::occurs_at(ctx, n, p - cs));
    assert(text.subrange(cs, cs + ctx.len()) =~= ctx);
    assert(crate::text::occurs_at(text, ctx, cs));
}

/// A resolved endpoint is the identifier of a matching anchored entity.
pub proof fn lemma_resolved_endpoint_matches(anchored: Seq<(Seq<char>, Seq<char>, i64)>, name: Seq<char>, kind: Option<Seq<char>>)
    requires
        resolved_endpoint(anchored, name, kind) is Some,
    ensures
        exists|i: int| 0 <= i < anchored.len() && endpoint_matches(#[trigger] anchored[i], name, kind)
            && anchored[i].2 == resolved_endpoint(anchored, name, kind)->0,
        forall|i: int| 0 <= i < anchored.len() && endpoint_matches(#[trigger] anchored[i], name, kind)
            ==> anchored[i].2 == resolved_endpoint(anchored, name, kind)->0,
{
}

} // verus!
