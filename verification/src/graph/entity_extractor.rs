//! Rule-based entity extraction: technology terms found with a dictionary,
//! dates and URLs found with regular expressions.
use vstd::prelude::*;

use crate::graph::query::{char_vecs, insert_sorted, sorted_strict};
use crate::graph::{Entity, EntityType};
use crate::matching::{dictionary_hits, dictionary_matches, group_texts, group_values, regex_capture_groups, regex_captures};
use crate::text::{chars_of, lemma_lex_order, owned, string_from_chars, strs};

verus! {

/// The strictly sorted sequence (in code-point order) that holds exactly the
/// given names: what sorting by name and dropping repeats leaves.
pub open spec fn sorted_unique(s: Seq<Seq<char>>) -> Seq<Seq<char>> {
    choose|v: Seq<Seq<char>>| sorted_strict(v) && forall|x: Seq<char>| #[trigger] v.contains(x) <==> s.contains(x)
}

/// Two strictly sorted sequences that hold the same names are equal.
pub proof fn lemma_sorted_same_contents(a: Seq<Seq<char>>, b: Seq<Seq<char>>)
    requires
        sorted_strict(a),
        sorted_strict(b),
        forall|x: Seq<char>| #[trigger] a.contains(x) <==> b.contains(x),
    ensures
        a == b,
    decreases a.len(),
{
    if a.len() == 0 {
        if b.len() > 0 {
            assert(b.contains(b[0]));
            assert(a.contains(b[0]));
        }
        assert(a =~= b);
    } else {
        assert(a.contains(a[0]));
        assert(b.contains(a[0]));
        let i = choose|i: int| 0 <= i < b.len() && b[i] == a[0];
        assert(a.contains(b[0])) by {
            assert(b.contains(b[0]));
        }
        let j = choose|j: int| 0 <= j < a.len() && a[j] == b[0];
        if a[0] != b[0] {
            assert(j > 0 && i > 0);
            assert(lex_lt_of(a, 0, j));
            assert(lex_lt_of(b, 0, i));
            lemma_lex_order(a[0], b[0], a[0]);
        }
        let a2 = a.drop_first();
        let b2 = b.drop_first();
        assert forall|x: Seq<char>| #[trigger] a2.contains(x) <==> b2.contains(x) by {
            if a2.contains(x) {
                let k = choose|k: int| 0 <= k < a2.len() && a2[k] == x;
                assert(a[k + 1] == x);
                assert(lex_lt_of(a, 0, k + 1));
                lemma_lex_order(a[0], x, x);
                assert(a.contains(x));
                assert(b.contains(x));
                let m = choose|m: int| 0 <= m < b.len() && b[m] == x;
                assert(m != 0);
                assert(b2[m - 1] == x);
            }
            if b2.contains(x) {
                let k = choose|k: int| 0 <= k < b2.len() && b2[k] == x;
                assert(b[k + 1] == x);
                assert(lex_lt_of(b, 0, k + 1));
                lemma_lex_order(b[0], x, x);
                assert(b.contains(x));
                assert(a.contains(x));
                let m = choose|m: int| 0 <= m < a.len() && a[m] == x;
                assert(m != 0);
                assert(a2[m - 1] == x);
            }
        }
        assert forall|p: int, q: int| 0 <= p < q < a2.len() implies crate::text::lex_lt(#[trigger] a2[p], #[trigger] a2[q]) by {
            assert(lex_lt_of(a, p + 1, q + 1));
        }
        assert forall|p: int, q: int| 0 <= p < q < b2.len() implies crate::text::lex_lt(#[trigger] b2[p], #[trigger] b2[q]) by {
            assert(lex_lt_of(b, p + 1, q + 1));
        }
        lemma_sorted_same_contents(a2, b2);
        assert(a =~= b) by {
            assert forall|k: int| 0 <= k < a.len() implies a[k] == b[k] by {
                if k > 0 {
                    assert(a[k] == a2[k - 1] && b[k] == b2[k - 1]);
                }
            }
        }
    }
}

/// `x` put at its place in a strictly sorted sequence, unless it is there.
spec fn sorted_insert(v: Seq<Seq<char>>, x: Seq<char>) -> Seq<Seq<char>>
    decreases v.len(),
{
    if v.len() == 0 {
        seq![x]
    } else if v[0] == x {
        v
    } else if crate::text::lex_lt(x, v[0]) {
        seq![x] + v
    } else {
        seq![v[0]] + sorted_insert(v.drop_first(), x)
    }
}

proof fn lemma_sorted_insert(v: Seq<Seq<char>>, x: Seq<char>)
    requires
        sorted_strict(v),
    ensures
        sorted_strict(sorted_insert(v, x)),
        forall|y: Seq<char>| #[trigger] sorted_insert(v, x).contains(y) <==> (v.contains(y) || y == x),
    decreases v.len(),
{
    let r = sorted_insert(v, x);
    if v.len() == 0 {
        assert(r[0] == x);
    } else if v[0] == x {
        assert(v.contains(v[0]));
    } else if crate::text::lex_lt(x, v[0]) {
        assert forall|y: Seq<char>| #[trigger] r.contains(y) <==> (v.contains(y) || y == x) by {
            if r.contains(y) {
                let k = choose|k: int| 0 <= k < r.len() && r[k] == y;
                if k > 0 {
                    assert(v[k - 1] == y);
                }
            }
            if v.contains(y) {
                let k = choose|k: int| 0 <= k < v.len() && v[k] == y;
                assert(r[k + 1] == y);
            }
            if y == x {
                assert(r[0] == y);
            }
        }
        assert forall|i: int, j: int| 0 <= i < j < r.len() implies crate::text::lex_lt(#[trigger] r[i], #[trigger] r[j]) by {
            if i == 0 {
                assert(r[j] == v[j - 1]);
                if j - 1 > 0 {
                    assert(lex_lt_of(v, 0, j - 1));
                    lemma_lex_order(x, v[0], v[j - 1]);
                }
            } else {
                assert(lex_lt_of(v, i - 1, j - 1));
            }
        }
    } else {
        lemma_lex_order(x, v[0], x);
        let rest = v.drop_first();
        assert(sorted_strict(rest)) by {
            assert forall|i: int, j: int| 0 <= i < j < rest.len() implies crate::text::lex_lt(#[trigger] rest[i], #[trigger] rest[j]) by {
                assert(lex_lt_of(v, i + 1, j + 1));
            }
        }
        lemma_sorted_insert(rest, x);
        let t = sorted_insert(rest, x);
        assert(r == seq![v[0]] + t);
        assert forall|y: Seq<char>| #[trigger] r.contains(y) <==> (v.contains(y) || y == x) by {
            if r.contains(y) {
                let k = choose|k: int| 0 <= k < r.len() && r[k] == y;
                if k == 0 {
                    assert(v[0] == y);
                } else {
                    assert(t[k - 1] == y);
                    assert(t.contains(y));
                    if rest.contains(y) {
                        let m = choose|m: int| 0 <= m < rest.len() && rest[m] == y;
                        assert(v[m + 1] == y);
                    }
                }
            }
            if v.contains(y) {
                let k = choose|k: int| 0 <= k < v.len() && v[k] == y;
                if k == 0 {
                    assert(r[0] == y);
                } else {
                    assert(rest[k - 1] == y);
                    assert(rest.contains(y));
                    assert(t.contains(y));
                    let m = choose|m: int| 0 <= m < t.len() && t[m] == y;
                    assert(r[m + 1] == y);
                }
            }
            if y == x {
                assert(t.contains(y));
                let m = choose|m: int| 0 <= m < t.len() && t[m] == y;
                assert(r[m + 1] == y);
            }
        }
        assert forall|i: int, j: int| 0 <= i < j < r.len() implies crate::text::lex_lt(#[trigger] r[i], #[trigger] r[j]) by {
            if i == 0 {
                let y = r[j];
                assert(t[j - 1] == y);
                assert(t.contains(y));
                if rest.contains(y) {
                    let m = choose|m: int| 0 <= m < rest.len() && rest[m] == y;
                    assert(lex_lt_of(v, 0, m + 1));
                }
            } else {
                assert(r[i] == t[i - 1] && r[j] == t[j - 1]);
            }
        }
    }
}

/// The names of `s` inserted one by one into a sorted sequence.
spec fn sorted_of(s: Seq<Seq<char>>) -> Seq<Seq<char>>
    decreases s.len(),
{
    if s.len() == 0 {
        seq![]
    } else {
        sorted_insert(sorted_of(s.drop_last()), s.last())
    }
}

proof fn lemma_sorted_of(s: Seq<Seq<char>>)
    ensures
        sorted_strict(sorted_of(s)),
        forall|x: Seq<char>| #[trigger] sorted_of(s).contains(x) <==> s.contains(x),
    decreases s.len(),
{
    if s.len() > 0 {
        let init = s.drop_last();
        lemma_sorted_of(init);
        lemma_sorted_insert(sorted_of(init), s.last());
        assert forall|x: Seq<char>| #[trigger] sorted_of(s).contains(x) <==> s.contains(x) by {
            if init.contains(x) {
                let k = choose|k: int| 0 <= k < init.len() && init[k] == x;
                assert(s[k] == x);
            }
            if s.contains(x) {
                let k = choose|k: int| 0 <= k < s.len() && s[k] == x;
                if k < s.len() - 1 {
                    assert(init[k] == x);
                }
            }
            if x == s.last() {
                assert(s[s.len() - 1] == x);
            }
        }
    }
}

/// Every list of names has a sorted form: `sorted_unique(s)` is strictly
/// sorted and holds exactly the names of `s`.
pub proof fn lemma_sorted_unique(s: Seq<Seq<char>>)
    ensures
        sorted_strict(sorted_unique(s)),
        forall|x: Seq<char>| #[trigger] sorted_unique(s).contains(x) <==> s.contains(x),
{
    lemma_sorted_of(s);
    let w = sorted_of(s);
    assert(sorted_strict(w) && forall|x: Seq<char>| #[trigger] w.contains(x) <==> s.contains(x));
}

/// Element `i` of a sorted sequence comes before element `j`.
spec fn lex_lt_of(v: Seq<Seq<char>>, i: int, j: int) -> bool {
    crate::text::lex_lt(v[i], v[j])
}

/// The names sorted in code-point order, each once.
pub fn sorted_unique_names(names: &Vec<String>) -> (r: Vec<String>)
    ensures
        strs(r@) == sorted_unique(strs(names@)),
{
    let ghost ns = strs(names@);
    let mut acc: Vec<Vec<char>> = Vec::new();
    let mut i: usize = 0;
    while i < names.len()
        invariant
            i <= names@.len(),
            ns == strs(names@),
            sorted_strict(char_vecs(acc@)),
            forall|x: Seq<char>| #[trigger] char_vecs(acc@).contains(x) <==> ns.take(i as int).contains(x),
        decreases names@.len() - i,
    {
        let c = chars_of(names[i].as_str());
        let ghost before = char_vecs(acc@);
        insert_sorted(&mut acc, c);
        proof {
            let t = ns.take(i + 1);
            assert(t =~= ns.take(i as int).push(names@[i as int]@));
            assert forall|x: Seq<char>| #[trigger] char_vecs(acc@).contains(x) <==> t.contains(x) by {
                if t.contains(x) {
                    let k = choose|k: int| 0 <= k < t.len() && t[k] == x;
                    if k < i {
                        assert(ns.take(i as int)[k] == x);
                        assert(ns.take(i as int).contains(x));
                    }
                }
                if ns.take(i as int).contains(x) {
                    let k = choose|k: int| 0 <= k < i && ns.take(i as int)[k] == x;
                    assert(t[k] == x);
                }
                if x == names@[i as int]@ {
                    assert(t[i as int] == x);
                }
            }
        }
        i = i + 1;
    }
    assert(ns.take(ns.len() as int) =~= ns);
    let mut out: Vec<String> = Vec::new();
    let mut k: usize = 0;
    while k < acc.len()
        invariant
            k <= acc@.len(),
            strs(out@) =~= char_vecs(acc@).take(k as int),
        decreases acc@.len() - k,
    {
        let s = string_from_chars(acc[k].as_slice());
        let ghost before = out@;
        out.push(s);
        assert(strs(out@) =~= strs(before).push(acc@[k as int]@));
        assert(char_vecs(acc@).take(k + 1) =~= char_vecs(acc@).take(k as int).push(acc@[k as int]@));
        k = k + 1;
    }
    proof {
        let w = char_vecs(acc@);
        assert(w.take(w.len() as int) =~= w);
        assert(sorted_strict(w) && forall|x: Seq<char>| #[trigger] w.contains(x) <==> ns.contains(x));
        let v = sorted_unique(ns);
        lemma_sorted_same_contents(w, v);
    }
    out
}

/// The names of entities, in order.
pub open spec fn entity_names(es: Seq<Entity>) -> Seq<Seq<char>> {
    es.map_values(|e: Entity| e.name@)
}

/// An entity as rule-based extraction makes it: of the given kind, with no
/// file or knowledge base, and for a URL the property `type` set to `url`.
pub open spec fn rule_entity(e: Entity, kind: Seq<char>, url: bool) -> bool {
    &&& e.entity_type.name() == kind
    &&& e.file_id is None
    &&& e.kb_id is None
    &&& e.wf()
    &&& e.props() == if url {
        Map::<Seq<char>, Seq<char>>::empty().insert("type"@, "url"@)
    } else {
        Map::<Seq<char>, Seq<char>>::empty()
    }
}

fn entities_of(names: &Vec<String>, kind: &str, url: bool) -> (es: Vec<Entity>)
    ensures
        entity_names(es@) == strs(names@),
        forall|i: int| 0 <= i < es@.len() ==> rule_entity(#[trigger] es@[i], kind@, url),
{
    let mut es: Vec<Entity> = Vec::new();
    let mut i: usize = 0;
    while i < names.len()
        invariant
            i <= names@.len(),
            entity_names(es@) =~= strs(names@).take(i as int),
            forall|k: int| 0 <= k < es@.len() ==> rule_entity(#[trigger] es@[k], kind@, url),
        decreases names@.len() - i,
    {
        let e = Entity::new(names[i].clone(), EntityType::Custom(owned(kind)));
        let e = if url {
            e.with_property(owned("type"), owned("url"))
        } else {
            e
        };
        let ghost before = es@;
        es.push(e);
        assert(entity_names(es@) =~= entity_names(before).push(names@[i as int]@));
        assert(strs(names@).take(i + 1) =~= strs(names@).take(i as int).push(names@[i as int]@));
        assert(es@[i as int] == e);
        i = i + 1;
    }
    assert(strs(names@).take(names@.len() as int) =~= strs(names@));
    es
}

/// Kind given to technology terms.
pub const KIND_TECHNOLOGY: &'static str = "Technology";

/// Kind given to dates.
pub const KIND_DATE: &'static str = "Date";

/// Kind given to URLs.
pub const KIND_URL: &'static str = "url";

/// Dates such as `2024-06-30`, `2024/6/30`, `2024年1月15日`, `2024年1月` or
/// `1月15日`.
pub const DATE_PATTERN: &'static str = "(\\d{4}[-/年]\\d{1,2}[-/月]\\d{1,2}日?)|(\\d{4}年\\d{1,2}月)|(\\d{1,2}月\\d{1,2}日)";

/// Web addresses: `http://` or `https://` up to the next white space.
pub const URL_PATTERN: &'static str = "https?://[^\\s]+";

/// The technology terms the dictionary holds, in order.
pub open spec fn tech_term_list() -> Seq<Seq<char>> {
    seq![
        "Rust"@, "Python"@, "Java"@, "JavaScript"@, "TypeScript"@, "Go"@, "C++"@, "C#"@,
        "React"@, "Vue"@, "Angular"@, "Django"@, "Flask"@, "Spring"@, "Axum"@, "Tokio"@,
        "MySQL"@, "PostgreSQL"@, "MongoDB"@, "Redis"@, "SQLite"@, "Elasticsearch"@,
        "AWS"@, "Azure"@, "GCP"@, "Docker"@, "Kubernetes"@, "K8s"@,
        "Git"@, "GitHub"@, "GitLab"@, "Jenkins"@, "CI/CD"@,
        "API"@, "REST"@, "GraphQL"@, "gRPC"@, "HTTP"@, "HTTPS"@, "WebSocket"@,
        "微服务"@, "分布式"@, "云原生"@, "容器化"@, "虚拟化"@,
    ]
}

/// The terms of the dictionary matches found in a text, in order.
pub open spec fn tech_term_hits(terms: Seq<Seq<char>>, text: Seq<char>) -> Seq<Seq<char>> {
    dictionary_hits(terms, text).map_values(|k: usize| terms[k as int])
}

/// The dates found in a text, in order.
pub open spec fn date_captures(text: Seq<char>) -> Seq<Seq<char>> {
    group_texts(regex_capture_groups(DATE_PATTERN@, text), 0)
}

/// The URLs found in a text, in order.
pub open spec fn url_captures(text: Seq<char>) -> Seq<Seq<char>> {
    group_texts(regex_capture_groups(URL_PATTERN@, text), 0)
}

/// Extracts entities by rules: technology terms from a dictionary, dates and
/// URLs by pattern.
pub struct RuleBasedExtractor {
    tech_terms: Vec<String>,
}

impl RuleBasedExtractor {
    /// The dictionary's terms.
    pub closed spec fn terms(&self) -> Seq<Seq<char>> {
        strs(self.tech_terms@)
    }

    /// An extractor with the technology dictionary.
    pub fn new() -> (r: RuleBasedExtractor)
        ensures
            r.terms() == tech_term_list(),
    {
        let tech_terms: Vec<String> = vec![
            owned("Rust"), owned("Python"), owned("Java"), owned("JavaScript"), owned("TypeScript"),
            owned("Go"), owned("C++"), owned("C#"), owned("React"), owned("Vue"), owned("Angular"),
            owned("Django"), owned("Flask"), owned("Spring"), owned("Axum"), owned("Tokio"),
            owned("MySQL"), owned("PostgreSQL"), owned("MongoDB"), owned("Redis"), owned("SQLite"),
            owned("Elasticsearch"), owned("AWS"), owned("Azure"), owned("GCP"), owned("Docker"),
            owned("Kubernetes"), owned("K8s"), owned("Git"), owned("GitHub"), owned("GitLab"),
            owned("Jenkins"), owned("CI/CD"), owned("API"), owned("REST"), owned("GraphQL"),
            owned("gRPC"), owned("HTTP"), owned("HTTPS"), owned("WebSocket"), owned("微服务"),
            owned("分布式"), owned("云原生"), owned("容器化"), owned("虚拟化"),
        ];
        assert(strs(tech_terms@) =~= tech_term_list());
        RuleBasedExtractor { tech_terms }
    }

    /// The technology terms a text mentions, sorted by name, each once.
    pub fn extract_tech_entities(&self, text: &str) -> (es: Vec<Entity>)
        ensures
            entity_names(es@) == sorted_unique(tech_term_hits(self.terms(), text@)),
            forall|i: int| 0 <= i < es@.len() ==> rule_entity(#[trigger] es@[i], KIND_TECHNOLOGY@, false),
    {
        let hits = dictionary_matches(&self.tech_terms, text);
        let ghost hv = tech_term_hits(self.terms(), text@);
        let mut found: Vec<String> = Vec::new();
        let mut i: usize = 0;
        while i < hits.len()
            invariant
                i <= hits@.len(),
                hits@ == dictionary_hits(strs(self.tech_terms@), text@),
                forall|k: int| 0 <= k < hits@.len() ==> (#[trigger] hits@[k]) < self.tech_terms@.len(),
                hv == tech_term_hits(self.terms(), text@),
                strs(found@) =~= hv.take(i as int),
            decreases hits@.len() - i,
        {
            let k = hits[i];
            assert(k < self.tech_terms@.len());
            let ghost before = found@;
            found.push(self.tech_terms[k].clone());
            assert(strs(found@) =~= strs(before).push(self.tech_terms@[k as int]@));
            assert(hv[i as int] == strs(self.tech_terms@)[k as int]);
            assert(hv.take(i + 1) =~= hv.take(i as int).push(hv[i as int]));
            i = i + 1;
        }
        assert(hv.take(hv.len() as int) =~= hv);
        let names = sorted_unique_names(&found);
        entities_of(&names, KIND_TECHNOLOGY, false)
    }

    /// The dates a text mentions, sorted, each once.
    pub fn extract_dates(&self, text: &str) -> (es: Vec<Entity>)
        ensures
            entity_names(es@) == sorted_unique(date_captures(text@)),
            forall|i: int| 0 <= i < es@.len() ==> rule_entity(#[trigger] es@[i], KIND_DATE@, false),
    {
        let caps = regex_captures(DATE_PATTERN, text);
        let found = group_values(&caps, 0);
        let names = sorted_unique_names(&found);
        entities_of(&names, KIND_DATE, false)
    }

    /// The URLs a text mentions, sorted, each once, each with the property
    /// `type` set to `url`.
    pub fn extract_urls(&self, text: &str) -> (es: Vec<Entity>)
        ensures
            entity_names(es@) == sorted_unique(url_captures(text@)),
            forall|i: int| 0 <= i < es@.len() ==> rule_entity(#[trigger] es@[i], KIND_URL@, true),
    {
        let caps = regex_captures(URL_PATTERN, text);
        let found = group_values(&caps, 0);
        let names = sorted_unique_names(&found);
        entities_of(&names, KIND_URL, true)
    }

    /// All rule-based entities of a text: its technology terms, then its
    /// dates, then its URLs (each part as its own extraction gives it).
    pub fn extract_all(&self, text: &str) -> (es: Vec<Entity>)
        ensures
            ({
                let t = sorted_unique(tech_term_hits(self.terms(), text@));
                let d = sorted_unique(date_captures(text@));
                let u = sorted_unique(url_captures(text@));
                &&& entity_names(es@) == t + d + u
                &&& forall|i: int| 0 <= i < t.len() ==> rule_entity(#[trigger] es@[i], KIND_TECHNOLOGY@, false)
                &&& forall|i: int| t.len() <= i < t.len() + d.len() ==> rule_entity(#[trigger] es@[i], KIND_DATE@, false)
                &&& forall|i: int| t.len() + d.len() <= i < es@.len() ==> rule_entity(#[trigger] es@[i], KIND_URL@, true)
            }),
    {
        let mut es = self.extract_tech_entities(text);
        let mut dates = self.extract_dates(text);
        let mut urls = self.extract_urls(text);
        let ghost (a, b, c) = (es@, dates@, urls@);
        es.append(&mut dates);
        es.append(&mut urls);
        proof {
            assert(es@ =~= a + b + c);
            assert(entity_names(es@) =~= entity_names(a) + entity_names(b) + entity_names(c));
            assert forall|i: int| a.len() <= i < a.len() + b.len() implies rule_entity(#[trigger] es@[i], KIND_DATE@, false) by {
                assert(es@[i] == b[i - a.len()]);
            }
            assert forall|i: int| a.len() + b.len() <= i < es@.len() implies rule_entity(#[trigger] es@[i], KIND_URL@, true) by {
                assert(es@[i] == c[i - a.len() - b.len()]);
            }
            assert forall|i: int| 0 <= i < a.len() implies rule_entity(#[trigger] es@[i], KIND_TECHNOLOGY@, false) by {
                assert(es@[i] == a[i]);
            }
        }
        es
    }
}

impl Default for RuleBasedExtractor {
    fn default() -> (r: RuleBasedExtractor)
        ensures
            r.terms() == tech_term_list(),
    {
        RuleBasedExtractor::new()
    }
}

} // verus!
