//! Relations found by sentence patterns between entities already extracted.
use vstd::prelude::*;

use crate::graph::entity_extractor::entity_names;
use crate::graph::{pairs_view, Entity, RelationType};
use crate::matching::{captures_view, regex_capture_groups, regex_captures};
use crate::text::{owned, str_eq, strs, trim, trimmed};

verus! {

/// A relation that a pattern found: its source and target entity names, its
/// kind and its properties.
#[derive(Debug, Clone)]
pub struct MatchedRelation {
    pub source_name: String,
    pub target_name: String,
    pub relation_type: RelationType,
    pub properties: Vec<(String, String)>,
}

/// Source, target and kind name of each relation, in order.
pub open spec fn relations_view(rs: Seq<MatchedRelation>) -> Seq<(Seq<char>, Seq<char>, Seq<char>)> {
    rs.map_values(|r: MatchedRelation| (r.source_name@, r.target_name@, r.relation_type.name()))
}

/// "X is a kind of Y": an `IsA` relation.
pub const PATTERN_IS_A: &'static str = "([^，。！？]+)是([^，。！？]+)的一种";

/// "X belongs to Y": a `PartOf` relation.
pub const PATTERN_PART_OF: &'static str = "([^，。！？]+)属于([^，。！？]+)";

/// "X contains Y": a `Contains` relation.
pub const PATTERN_CONTAINS: &'static str = "([^，。！？]+)包含([^，。！？]+)";

/// "X depends on Y": a `DependsOn` relation.
pub const PATTERN_DEPENDS_ON: &'static str = "([^，。！？]+)依赖([^，。！？]+)";

/// "X is before Y": a `Before` relation.
pub const PATTERN_BEFORE: &'static str = "([^，。！？]+)在([^，。！？]+)之前";

/// "X is after Y": an `After` relation.
pub const PATTERN_AFTER: &'static str = "([^，。！？]+)在([^，。！？]+)之后";

/// The patterns, in the order they are tried, each with its relation kind.
pub open spec fn pattern_list() -> Seq<(Seq<char>, Seq<char>)> {
    seq![
        (PATTERN_IS_A@, "IsA"@),
        (PATTERN_PART_OF@, "PartOf"@),
        (PATTERN_CONTAINS@, "Contains"@),
        (PATTERN_DEPENDS_ON@, "DependsOn"@),
        (PATTERN_BEFORE@, "Before"@),
        (PATTERN_AFTER@, "After"@),
    ]
}

/// The text of a group, or nothing where it takes no part.
pub open spec fn opt_text(g: Option<Seq<char>>) -> Seq<char> {
    match g {
        Some(t) => t,
        None => seq![],
    }
}

/// For each match with at least two groups, in order: its first two groups
/// trimmed, kept where both are names of the given entities.
pub open spec fn captured_pairs(caps: Seq<Seq<Option<Seq<char>>>>, names: Seq<Seq<char>>) -> Seq<(Seq<char>, Seq<char>)>
    decreases caps.len(),
{
    if caps.len() == 0 {
        seq![]
    } else {
        let prev = captured_pairs(caps.drop_last(), names);
        let m = caps.last();
        if m.len() >= 3 {
            let s = trim(opt_text(m[1]));
            let t = trim(opt_text(m[2]));
            if names.contains(s) && names.contains(t) {
                prev.push((s, t))
            } else {
                prev
            }
        } else {
            prev
        }
    }
}

/// The relations the patterns find in a text, pattern by pattern and match
/// by match: source, target and the pattern's relation kind.
pub open spec fn pattern_relations(patterns: Seq<(Seq<char>, Seq<char>)>, text: Seq<char>, names: Seq<Seq<char>>) -> Seq<(Seq<char>, Seq<char>, Seq<char>)>
    decreases patterns.len(),
{
    if patterns.len() == 0 {
        seq![]
    } else {
        let kind = patterns.last().1;
        pattern_relations(patterns.drop_last(), text, names) + captured_pairs(
            regex_capture_groups(patterns.last().0, text),
            names,
        ).map_values(|p: (Seq<char>, Seq<char>)| (p.0, p.1, kind))
    }
}

/// Whether one of the entities has the name.
fn has_entity_named(entities: &[Entity], name: &str) -> (b: bool)
    ensures
        b == entity_names(entities@).contains(name@),
{
    let ghost ns = entity_names(entities@);
    let mut i: usize = 0;
    while i < entities.len()
        invariant
            i <= entities@.len(),
            ns == entity_names(entities@),
            forall|k: int| 0 <= k < i ==> ns[k] != name@,
        decreases entities@.len() - i,
    {
        assert(ns[i as int] == entities@[i as int].name@);
        if str_eq(entities[i].name.as_str(), name) {
            return true;
        }
        i = i + 1;
    }
    false
}

fn group_text(m: &Vec<Option<String>>, k: usize) -> (t: String)
    requires
        k < m@.len(),
    ensures
        t@ == trim(opt_text(crate::text::opt_str(m@[k as int]))),
{
    match &m[k] {
        Some(g) => trimmed(g.as_str()),
        None => {
            let e = String::new();
            assert(trim(Seq::<char>::empty()) =~= Seq::<char>::empty()) by {
                reveal_with_fuel(crate::text::trim_start, 1);
                reveal_with_fuel(crate::text::trim_end, 1);
            }
            e
        },
    }
}

/// Finds relations between sentence patterns and named entities.
pub struct PatternMatcher {
    patterns: Vec<(String, String)>,
}

impl PatternMatcher {
    /// The patterns with their relation kinds, in order.
    pub closed spec fn patterns(&self) -> Seq<(Seq<char>, Seq<char>)> {
        self.patterns@.map_values(|p: (String, String)| (p.0@, p.1@))
    }

    /// A matcher with the sentence patterns for `IsA`, `PartOf`, `Contains`,
    /// `DependsOn`, `Before` and `After`.
    pub fn new() -> (r: PatternMatcher)
        ensures
            r.patterns() == pattern_list(),
    {
        let patterns: Vec<(String, String)> = vec![
            (owned(PATTERN_IS_A), owned("IsA")),
            (owned(PATTERN_PART_OF), owned("PartOf")),
            (owned(PATTERN_CONTAINS), owned("Contains")),
            (owned(PATTERN_DEPENDS_ON), owned("DependsOn")),
            (owned(PATTERN_BEFORE), owned("Before")),
            (owned(PATTERN_AFTER), owned("After")),
        ];
        let r = PatternMatcher { patterns };
        assert(r.patterns() =~= pattern_list());
        r
    }

    /// The relations that the patterns find between the given entities, in
    /// pattern order and, for each pattern, in match order; each carries the
    /// property `source` set to `pattern_matching`.
    pub fn match_patterns(&self, text: &str, entities: &[Entity]) -> (rs: Vec<MatchedRelation>)
        ensures
            relations_view(rs@) == pattern_relations(self.patterns(), text@, entity_names(entities@)),
            forall|i: int| 0 <= i < rs@.len() ==> pairs_view((#[trigger] rs@[i]).properties@) == seq![
                ("source"@, "pattern_matching"@),
            ],
    {
        let ghost pv = self.patterns();
        let ghost names = entity_names(entities@);
        let mut rs: Vec<MatchedRelation> = Vec::new();
        let mut p: usize = 0;
        while p < self.patterns.len()
            invariant
                p <= self.patterns@.len(),
                pv == self.patterns(),
                names == entity_names(entities@),
                relations_view(rs@) == pattern_relations(pv.take(p as int), text@, names),
                forall|i: int| 0 <= i < rs@.len() ==> pairs_view((#[trigger] rs@[i]).properties@) == seq![
                    ("source"@, "pattern_matching"@),
                ],
            decreases self.patterns@.len() - p,
        {
            let ghost start = relations_view(rs@);
            let pattern = &self.patterns[p];
            assert(pv[p as int] == (pattern.0@, pattern.1@));
            let caps = regex_captures(pattern.0.as_str(), text);
            let ghost cv = captures_view(caps@);
            let ghost kind = pattern.1@;
            let mut j: usize = 0;
            while j < caps.len()
                invariant
                    j <= caps@.len(),
                    cv == captures_view(caps@),
                    kind == pattern.1@,
                    names == entity_names(entities@),
                    relations_view(rs@) == start + captured_pairs(cv.take(j as int), names).map_values(
                        |q: (Seq<char>, Seq<char>)| (q.0, q.1, kind),
                    ),
                    forall|i: int| 0 <= i < rs@.len() ==> pairs_view((#[trigger] rs@[i]).properties@) == seq![
                        ("source"@, "pattern_matching"@),
                    ],
                decreases caps@.len() - j,
            {
                let ghost before = rs@;
                let ghost prev = captured_pairs(cv.take(j as int), names);
                assert(cv.take(j + 1).drop_last() =~= cv.take(j as int));
                assert(cv.take(j + 1).last() == cv[j as int]);
                assert(cv[j as int] == caps@[j as int]@.map_values(|g: Option<String>| crate::text::opt_str(g)));
                let m = &caps[j];
                if m.len() >= 3 {
                    let s = group_text(m, 1);
                    let t = group_text(m, 2);
                    if has_entity_named(entities, s.as_str()) && has_entity_named(entities, t.as_str()) {
                        let mut props: Vec<(String, String)> = Vec::new();
                        props.push((owned("source"), owned("pattern_matching")));
                        assert(pairs_view(props@) =~= seq![("source"@, "pattern_matching"@)]);
                        let ghost sv = s@;
                        let ghost tv = t@;
                        let rel = MatchedRelation {
                            source_name: s,
                            target_name: t,
                            relation_type: RelationType::Custom(pattern.1.clone()),
                            properties: props,
                        };
                        rs.push(rel);
                        proof {
                            assert(captured_pairs(cv.take(j + 1), names) == prev.push((sv, tv)));
                            assert(relations_view(rs@) =~= relations_view(before).push((sv, tv, kind)));
                            assert(prev.push((sv, tv)).map_values(|q: (Seq<char>, Seq<char>)| (q.0, q.1, kind))
                                =~= prev.map_values(|q: (Seq<char>, Seq<char>)| (q.0, q.1, kind)).push((sv, tv, kind)));
                        }
                    } else {
                        assert(captured_pairs(cv.take(j + 1), names) == prev);
                    }
                } else {
                    assert(captured_pairs(cv.take(j + 1), names) == prev);
                }
                j = j + 1;
            }
            proof {
                assert(cv.take(cv.len() as int) =~= cv);
                let tk = pv.take(p + 1);
                assert(tk.drop_last() =~= pv.take(p as int));
                assert(tk.last() == pv[p as int]);
            }
            p = p + 1;
        }
        assert(pv.take(pv.len() as int) =~= pv);
        rs
    }
}

impl Default for PatternMatcher {
    fn default() -> (r: PatternMatcher)
        ensures
            r.patterns() == pattern_list(),
    {
        PatternMatcher::new()
    }
}

} // verus!
