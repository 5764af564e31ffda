//! Pattern matching through outside crates: regular expressions (regex) and
//! dictionaries of terms (aho-corasick), with their results as plain values.
use vstd::prelude::*;

use crate::text::{opt_str, strs};

verus! {

/// The groups of every match that the regex crate's `captures_iter` finds
/// for `pattern` in `text`, matches in order: each match's groups, the whole
/// match first, `None` for a group that takes no part in it; no matches for
/// a pattern that does not compile.
pub uninterp spec fn regex_capture_groups(pattern: Seq<char>, text: Seq<char>) -> Seq<Seq<Option<Seq<char>>>>;

/// Plain values of the groups of matches.
pub open spec fn captures_view(v: Seq<Vec<Option<String>>>) -> Seq<Seq<Option<Seq<char>>>> {
    v.map_values(|m: Vec<Option<String>>| m@.map_values(|g: Option<String>| opt_str(g)))
}

/// `regex::Regex::new(pattern)` and `captures_iter(text)`: the groups of
/// every match (`Captures::iter`), as `regex_capture_groups` names them; none
/// where `Regex::new` reports an error.
#[verifier::external_body]
pub(crate) fn regex_captures(pattern: &str, text: &str) -> (r: Vec<Vec<Option<String>>>)
    ensures
        captures_view(r@) == regex_capture_groups(pattern@, text@),
{
    match regex::Regex::new(pattern) {
        Ok(re) => re.captures_iter(text).map(|c| c.iter().map(|g| g.map(|m| m.as_str().to_string())).collect()).collect(),
        Err(_) => Vec::new(),
    }
}

/// The text of group `k` of each match in which that group takes part, in
/// order.
pub open spec fn group_texts(caps: Seq<Seq<Option<Seq<char>>>>, k: int) -> Seq<Seq<char>>
    decreases caps.len(),
{
    if caps.len() == 0 {
        seq![]
    } else {
        let prev = group_texts(caps.drop_last(), k);
        let m = caps.last();
        if 0 <= k < m.len() && m[k] is Some {
            prev.push(m[k].unwrap())
        } else {
            prev
        }
    }
}

/// The texts of group `k` of the matches (see `group_texts`).
pub fn group_values(caps: &Vec<Vec<Option<String>>>, k: usize) -> (r: Vec<String>)
    ensures
        strs(r@) == group_texts(captures_view(caps@), k as int),
{
    let ghost cv = captures_view(caps@);
    let mut out: Vec<String> = Vec::new();
    let mut i: usize = 0;
    while i < caps.len()
        invariant
            i <= caps@.len(),
            cv == captures_view(caps@),
            strs(out@) == group_texts(cv.take(i as int), k as int),
        decreases caps@.len() - i,
    {
        assert(cv.take(i + 1).drop_last() =~= cv.take(i as int));
        let ghost m = cv[i as int];
        assert(cv.take(i + 1).last() == m);
        assert(m == caps@[i as int]@.map_values(|g: Option<String>| opt_str(g)));
        if k < caps[i].len() {
            assert(m[k as int] == opt_str(caps@[i as int]@[k as int]));
            match &caps[i][k] {
                Some(t) => {
                    let ghost before = out@;
                    out.push(t.clone());
                    assert(strs(out@) =~= strs(before).push(t@));
                },
                None => {},
            }
        }
        i = i + 1;
    }
    assert(cv.take(cv.len() as int) =~= cv);
    out
}

/// The index of the dictionary term of each match that aho-corasick's
/// `find_iter` reports for the terms in a text, with its default (standard)
/// match semantics, in order; none where the automaton cannot be built.
pub uninterp spec fn dictionary_hits(terms: Seq<Seq<char>>, text: Seq<char>) -> Seq<usize>;

/// `aho_corasick::AhoCorasick::new(terms)` and `find_iter(text)`: the pattern
/// index of every match, as `dictionary_hits` names them; a pattern index is
/// the position of its term in `terms`. None where the build reports an error.
#[verifier::external_body]
pub(crate) fn dictionary_matches(terms: &Vec<String>, text: &str) -> (r: Vec<usize>)
    ensures
        r@ == dictionary_hits(strs(terms@), text@),
        forall|i: int| 0 <= i < r@.len() ==> (#[trigger] r@[i]) < terms@.len(),
{
    match aho_corasick::AhoCorasick::new(terms) {
        Ok(ac) => ac.find_iter(text).map(|m| m.pattern().as_usize()).collect(),
        Err(_) => Vec::new(),
    }
}

} // verus!
