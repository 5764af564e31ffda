//! JSON documents read and written through serde_json: what a value holds,
//! as plain data, and the lookups the library makes in it.
use vstd::prelude::*;

use crate::text::{chars_lt, chars_of, decimal_int, lemma_lex_order, lex_lt, opt_str, str_eq, strs};

verus! {

/// serde_json's `Value`, carried through the library; what it holds is read
/// only through the wrappers below.
#[verifier::external_type_specification]
#[verifier::external_body]
pub struct ExJsonDocValue(serde_json::Value);

/// What a JSON value holds, as plain data. A number is the text serde_json
/// writes for it; an object's members are listed in the order its map
/// walks them.
pub enum JsonView {
    Null,
    Bool(bool),
    Number(Seq<char>),
    Str(Seq<char>),
    Array(Seq<JsonView>),
    Object(Seq<(Seq<char>, JsonView)>),
}

/// What a `serde_json::Value` holds.
pub uninterp spec fn value_json(v: serde_json::Value) -> JsonView;

/// What `serde_json::from_str` reads from a text: the value, or `None` where
/// the text is not a JSON document.
pub uninterp spec fn json_parsed(text: Seq<char>) -> Option<JsonView>;

/// What serde_json writes for a value: its compact JSON text.
pub uninterp spec fn json_text(v: JsonView) -> Seq<char>;

/// One level of a JSON value: scalars as plain values, the items or members
/// of an array or object as values of their own.
#[derive(Debug)]
pub enum JsonNode {
    Null,
    Bool(bool),
    Number(String),
    Str(String),
    Array(Vec<serde_json::Value>),
    Object(Vec<(String, serde_json::Value)>),
}

/// Object keys in strictly increasing order, as a `BTreeMap` holds them.
pub open spec fn keys_increasing<V>(ms: Seq<(Seq<char>, V)>) -> bool {
    forall|i: int, j: int| 0 <= i < j < ms.len() ==> lex_lt(#[trigger] ms[i].0, #[trigger] ms[j].0)
}

/// The plain view of a list of values.
pub open spec fn values_json(items: Seq<serde_json::Value>) -> Seq<JsonView> {
    items.map_values(|x: serde_json::Value| value_json(x))
}

/// The plain view of a list of members.
pub open spec fn members_json(ms: Seq<(String, serde_json::Value)>) -> Seq<(Seq<char>, JsonView)> {
    ms.map_values(|m: (String, serde_json::Value)| (m.0@, value_json(m.1)))
}

/// Whether a node is the top level of what a value holds.
pub open spec fn node_of(n: JsonNode, j: JsonView) -> bool {
    match n {
        JsonNode::Null => j == JsonView::Null,
        JsonNode::Bool(b) => j == JsonView::Bool(b),
        JsonNode::Number(t) => j == JsonView::Number(t@),
        JsonNode::Str(s) => j == JsonView::Str(s@),
        JsonNode::Array(items) => j == JsonView::Array(values_json(items@)),
        JsonNode::Object(ms) => j == JsonView::Object(members_json(ms@)) && keys_increasing(members_json(ms@)),
    }
}

/// `serde_json::from_str::<Value>`: the value read, holding what
/// `json_parsed` names for the text, or `None` exactly where it fails.
#[verifier::external_body]
pub(crate) fn parse_value(text: &str) -> (r: Option<serde_json::Value>)
    ensures
        match r {
            Some(v) => json_parsed(text@) == Some(value_json(v)),
            None => json_parsed(text@) is None,
        },
{
    serde_json::from_str::<serde_json::Value>(text).ok()
}

/// The top level of a value, one variant of serde_json's `Value` for each
/// of `JsonNode`; a number as its `Display` text, an object's members in
/// its map's order, which for serde_json's default `BTreeMap` is key order.
#[verifier::external_body]
pub(crate) fn value_node(v: &serde_json::Value) -> (n: JsonNode)
    ensures
        node_of(n, value_json(*v)),
{
    match v {
        serde_json::Value::Null => JsonNode::Null,
        serde_json::Value::Bool(b) => JsonNode::Bool(*b),
        serde_json::Value::Number(x) => JsonNode::Number(x.to_string()),
        serde_json::Value::String(s) => JsonNode::Str(s.clone()),
        serde_json::Value::Array(items) => JsonNode::Array(items.clone()),
        serde_json::Value::Object(m) => JsonNode::Object(m.iter().map(|(k, x)| (k.clone(), x.clone())).collect()),
    }
}

/// `Value::String`: a JSON string holding the text.
#[verifier::external_body]
pub(crate) fn value_string(s: &str) -> (r: serde_json::Value)
    ensures
        value_json(r) == JsonView::Str(s@),
{
    serde_json::Value::String(s.to_string())
}

/// `Value::Bool`: a JSON boolean.
#[verifier::external_body]
pub(crate) fn value_bool(b: bool) -> (r: serde_json::Value)
    ensures
        value_json(r) == JsonView::Bool(b),
{
    serde_json::Value::Bool(b)
}

/// `Value::from(i64)`: a JSON number, which serde_json writes in decimal
/// (`itoa`).
#[verifier::external_body]
pub(crate) fn value_i64(i: i64) -> (r: serde_json::Value)
    ensures
        value_json(r) == JsonView::Number(decimal_int(i as int)),
{
    serde_json::Value::from(i)
}

/// `Value::Array`: a JSON array of the given items, in order.
#[verifier::external_body]
pub(crate) fn value_array(items: Vec<serde_json::Value>) -> (r: serde_json::Value)
    ensures
        value_json(r) == JsonView::Array(values_json(items@)),
{
    serde_json::Value::Array(items)
}

/// `Value::Object` of the members collected into serde_json's map (a
/// `BTreeMap`); where the keys are strictly increasing the map holds exactly
/// them, in that order. Nothing is stated for other member lists.
#[verifier::external_body]
pub(crate) fn value_object(members: Vec<(String, serde_json::Value)>) -> (r: serde_json::Value)
    ensures
        keys_increasing(members_json(members@)) ==> value_json(r) == JsonView::Object(members_json(members@)),
{
    serde_json::Value::Object(members.into_iter().collect())
}

/// The compact JSON text of a value (`Value`'s `Display`).
#[verifier::external_body]
pub(crate) fn value_text(v: &serde_json::Value) -> (r: String)
    ensures
        r@ == json_text(value_json(*v)),
{
    v.to_string()
}

/// The value of the first member named `key` of an object; `None` for a
/// value that is not an object or has no such member.
pub open spec fn member(j: JsonView, key: Seq<char>) -> Option<JsonView> {
    match j {
        JsonView::Object(ms) => member_in(ms, key),
        _ => None,
    }
}

/// The value of the first member named `key`.
pub open spec fn member_in(ms: Seq<(Seq<char>, JsonView)>, key: Seq<char>) -> Option<JsonView>
    decreases ms.len(),
{
    if ms.len() == 0 {
        None
    } else if ms[0].0 == key {
        Some(ms[0].1)
    } else {
        member_in(ms.drop_first(), key)
    }
}

/// The text of a string value.
pub open spec fn as_text(j: Option<JsonView>) -> Option<Seq<char>> {
    match j {
        Some(JsonView::Str(s)) => Some(s),
        _ => None,
    }
}

/// The member named `key` of an object value (`Value::get` with a key).
pub fn get_member(v: &serde_json::Value, key: &str) -> (r: Option<serde_json::Value>)
    ensures
        match r {
            Some(c) => member(value_json(*v), key@) == Some(value_json(c)),
            None => member(value_json(*v), key@) is None,
        },
{
    let n = value_node(v);
    match n {
        JsonNode::Object(mut ms) => {
            let ghost view = members_json(ms@);
            assert(value_json(*v) == JsonView::Object(view));
            let mut i: usize = 0;
            assert(view.skip(0) =~= view);
            while i < ms.len()
                invariant
                    i <= ms@.len(),
                    view == members_json(ms@),
                    value_json(*v) == JsonView::Object(view),
                    member_in(view, key@) == member_in(view.skip(i as int), key@),
                decreases ms@.len() - i,
            {
                assert(view.skip(i as int)[0] == view[i as int]);
                assert(view.skip(i as int).drop_first() =~= view.skip(i + 1));
                assert(view[i as int] == (ms@[i as int].0@, value_json(ms@[i as int].1)));
                if str_eq(ms[i].0.as_str(), key) {
                    let ghost old_ms = ms@;
                    let (_, c) = ms.remove(i);
                    assert(c == old_ms[i as int].1);
                    return Some(c);
                }
                i = i + 1;
            }
            None
        },
        _ => None,
    }
}

/// The text of a string value (`Value::as_str`).
pub fn text_of(v: &serde_json::Value) -> (r: Option<String>)
    ensures
        opt_str(r) == as_text(Some(value_json(*v))),
{
    match value_node(v) {
        JsonNode::Str(s) => Some(s),
        _ => None,
    }
}

/// The text of the string member named `key` of an object value.
pub fn member_text(v: &serde_json::Value, key: &str) -> (r: Option<String>)
    ensures
        opt_str(r) == as_text(member(value_json(*v), key@)),
{
    match get_member(v, key) {
        Some(c) => text_of(&c),
        None => None,
    }
}

/// Members with `key` set to `value`, as a key-ordered map does it: the
/// first member named `key` gets the value, else the member goes in before
/// the first greater key, or at the end.
pub open spec fn set_member(ms: Seq<(Seq<char>, JsonView)>, key: Seq<char>, value: JsonView) -> Seq<(Seq<char>, JsonView)>
    decreases ms.len(),
{
    if ms.len() == 0 {
        seq![(key, value)]
    } else if ms[0].0 == key {
        ms.update(0, (key, value))
    } else if lex_lt(key, ms[0].0) {
        seq![(key, value)] + ms
    } else {
        seq![ms[0]] + set_member(ms.drop_first(), key, value)
    }
}

proof fn lemma_set_member_above(ms: Seq<(Seq<char>, JsonView)>, key: Seq<char>, value: JsonView, b: Seq<char>)
    requires
        forall|i: int| 0 <= i < ms.len() ==> lex_lt(b, #[trigger] ms[i].0),
        lex_lt(b, key),
    ensures
        forall|i: int| 0 <= i < set_member(ms, key, value).len() ==> lex_lt(b, #[trigger] set_member(ms, key, value)[i].0),
    decreases ms.len(),
{
    if ms.len() > 0 && ms[0].0 != key && !lex_lt(key, ms[0].0) {
        let rest = ms.drop_first();
        assert forall|i: int| 0 <= i < rest.len() implies lex_lt(b, #[trigger] rest[i].0) by {
            assert(rest[i] == ms[i + 1]);
        }
        lemma_set_member_above(rest, key, value, b);
        let t = set_member(ms, key, value);
        assert forall|i: int| 0 <= i < t.len() implies lex_lt(b, #[trigger] t[i].0) by {
            if i > 0 {
                assert(t[i] == set_member(rest, key, value)[i - 1]);
            }
        }
    } else if ms.len() > 0 && ms[0].0 != key {
        let t = set_member(ms, key, value);
        assert forall|i: int| 0 <= i < t.len() implies lex_lt(b, #[trigger] t[i].0) by {
            if i > 0 {
                assert(t[i] == ms[i - 1]);
            }
        }
    } else if ms.len() > 0 {
        let t = set_member(ms, key, value);
        assert forall|i: int| 0 <= i < t.len() implies lex_lt(b, #[trigger] t[i].0) by {
            if i > 0 {
                assert(t[i] == ms[i]);
            }
        }
    }
}

/// Setting a member keeps an object's keys in strictly increasing order.
pub proof fn lemma_set_member_sorted(ms: Seq<(Seq<char>, JsonView)>, key: Seq<char>, value: JsonView)
    requires
        keys_increasing(ms),
    ensures
        keys_increasing(set_member(ms, key, value)),
    decreases ms.len(),
{
    let t = set_member(ms, key, value);
    if ms.len() == 0 {
    } else if ms[0].0 == key {
        assert forall|i: int, j: int| 0 <= i < j < t.len() implies lex_lt(#[trigger] t[i].0, #[trigger] t[j].0) by {
            assert(t[i].0 == ms[i].0 && t[j].0 == ms[j].0);
        }
    } else if lex_lt(key, ms[0].0) {
        assert forall|i: int, j: int| 0 <= i < j < t.len() implies lex_lt(#[trigger] t[i].0, #[trigger] t[j].0) by {
            assert(t[j] == ms[j - 1]);
            if i == 0 {
                if j - 1 > 0 {
                    assert(lex_lt(ms[0].0, ms[j - 1].0));
                    lemma_lex_order(key, ms[0].0, ms[j - 1].0);
                }
            } else {
                assert(t[i] == ms[i - 1]);
            }
        }
    } else {
        let rest = ms.drop_first();
        assert forall|i: int, j: int| 0 <= i < j < rest.len() implies lex_lt(#[trigger] rest[i].0, #[trigger] rest[j].0) by {
            assert(rest[i] == ms[i + 1] && rest[j] == ms[j + 1]);
        }
        lemma_set_member_sorted(rest, key, value);
        lemma_lex_order(key, ms[0].0, key);
        assert forall|i: int| 0 <= i < rest.len() implies lex_lt(ms[0].0, #[trigger] rest[i].0) by {
            assert(rest[i] == ms[i + 1]);
        }
        lemma_set_member_above(rest, key, value, ms[0].0);
        let u = set_member(rest, key, value);
        assert forall|i: int, j: int| 0 <= i < j < t.len() implies lex_lt(#[trigger] t[i].0, #[trigger] t[j].0) by {
            assert(t[j] == u[j - 1]);
            if i > 0 {
                assert(t[i] == u[i - 1]);
            }
        }
    }
}

/// What setting a member does to reads: the key now reads as the value set,
/// every other key as before.
pub proof fn lemma_set_member_reads(ms: Seq<(Seq<char>, JsonView)>, key: Seq<char>, value: JsonView, other: Seq<char>)
    ensures
        member_in(set_member(ms, key, value), key) == Some(value),
        other != key ==> member_in(set_member(ms, key, value), other) == member_in(ms, other),
    decreases ms.len(),
{
    let t = set_member(ms, key, value);
    if ms.len() == 0 {
    } else if ms[0].0 == key {
        assert(t[0] == (key, value));
        assert(t.drop_first() =~= ms.drop_first());
        if other != key {
            assert(member_in(t, other) == member_in(t.drop_first(), other));
            assert(member_in(ms, other) == member_in(ms.drop_first(), other));
        }
    } else if lex_lt(key, ms[0].0) {
        assert(t[0] == (key, value));
        assert(t.drop_first() =~= ms);
    } else {
        lemma_set_member_reads(ms.drop_first(), key, value, other);
        assert(t[0] == ms[0]);
        assert(t.drop_first() =~= set_member(ms.drop_first(), key, value));
    }
}

/// Sets member `key` of `ms` to `value` as a key-ordered map does.
pub fn set_member_value(ms: &mut Vec<(String, serde_json::Value)>, key: &str, value: serde_json::Value)
    ensures
        members_json(final(ms)@) == set_member(members_json(old(ms)@), key@, value_json(value)),
{
    let ghost m0 = members_json(ms@);
    let ghost vj = value_json(value);
    let kc = chars_of(key);
    let mut i: usize = 0;
    assert(m0.take(0) + m0.skip(0) =~= m0);
    while i < ms.len()
        invariant
            i <= ms@.len(),
            members_json(ms@) == m0,
            m0 == members_json(old(ms)@),
            vj == value_json(value),
            kc@ == key@,
            set_member(m0, key@, vj) == m0.take(i as int) + set_member(m0.skip(i as int), key@, vj),
        decreases ms@.len() - i,
    {
        let ghost rest = m0.skip(i as int);
        assert(rest[0] == m0[i as int]);
        assert(m0[i as int] == (ms@[i as int].0@, value_json(ms@[i as int].1)));
        if str_eq(ms[i].0.as_str(), key) {
            let ghost before = ms@;
            let entry = (String::from_str(key), value);
            assert(entry.0@ == key@);
            ms.set(i, entry);
            proof {
                assert(ms@ == before.update(i as int, entry));
                assert forall|k: int| 0 <= k < ms@.len() implies #[trigger] members_json(ms@)[k] == m0.update(i as int, (key@, vj))[k] by {
                    if k != i {
                        assert(ms@[k] == before[k]);
                        assert(members_json(before)[k] == m0[k]);
                    } else {
                        assert(ms@[k] == entry);
                        assert(members_json(ms@)[k] == (entry.0@, value_json(entry.1)));
                    }
                }
                assert(members_json(ms@) =~= m0.update(i as int, (key@, vj)));
                assert(set_member(rest, key@, vj) == rest.update(0, (key@, vj)));
                assert(m0.update(i as int, (key@, vj)) =~= m0.take(i as int) + rest.update(0, (key@, vj)));
            }
            return;
        }
        let ec = chars_of(ms[i].0.as_str());
        if chars_lt(kc.as_slice(), ec.as_slice()) {
            let ghost before = ms@;
            let entry = (String::from_str(key), value);
            assert(entry.0@ == key@);
            ms.insert(i, entry);
            proof {
                assert forall|k: int| 0 <= k < ms@.len() implies #[trigger] members_json(ms@)[k] == m0.insert(i as int, (key@, vj))[k] by {
                    if k < i {
                        assert(ms@[k] == before[k]);
                        assert(members_json(before)[k] == m0[k]);
                    } else if k > i {
                        assert(ms@[k] == before[k - 1]);
                        assert(members_json(before)[k - 1] == m0[k - 1]);
                    } else {
                        assert(ms@[k] == entry);
                    }
                }
                assert(members_json(ms@) =~= m0.insert(i as int, (key@, vj)));
                assert(set_member(rest, key@, vj) == seq![(key@, vj)] + rest);
                assert(m0.insert(i as int, (key@, vj)) =~= m0.take(i as int) + (seq![(key@, vj)] + rest));
            }
            return;
        }
        proof {
            assert(set_member(rest, key@, vj) == seq![rest[0]] + set_member(rest.drop_first(), key@, vj));
            assert(rest.drop_first() =~= m0.skip(i + 1));
            assert(m0.take(i + 1) =~= m0.take(i as int).push(rest[0]));
        }
        i = i + 1;
    }
    let ghost before = ms@;
    let entry = (String::from_str(key), value);
    assert(entry.0@ == key@);
    ms.push(entry);
    proof {
        assert forall|k: int| 0 <= k < ms@.len() implies #[trigger] members_json(ms@)[k] == m0.push((key@, vj))[k] by {
            if k < before.len() {
                assert(ms@[k] == before[k]);
                assert(members_json(before)[k] == m0[k]);
            } else {
                assert(ms@[k] == entry);
            }
        }
        assert(m0.skip(i as int) =~= Seq::<(Seq<char>, JsonView)>::empty());
        assert(m0.take(i as int) =~= m0);
        assert(members_json(ms@) =~= m0.push((key@, vj)));
    }
}

/// The index of the first member named `key`.
pub fn find_member(ms: &Vec<(String, serde_json::Value)>, key: &str) -> (r: Option<usize>)
    ensures
        match r {
            Some(i) => i < ms@.len() && member_in(members_json(ms@), key@) == Some(members_json(ms@)[i as int].1),
            None => member_in(members_json(ms@), key@) is None,
        },
{
    let ghost view = members_json(ms@);
    let mut i: usize = 0;
    assert(view.skip(0) =~= view);
    while i < ms.len()
        invariant
            i <= ms@.len(),
            view == members_json(ms@),
            member_in(view, key@) == member_in(view.skip(i as int), key@),
        decreases ms@.len() - i,
    {
        assert(view.skip(i as int)[0] == view[i as int]);
        assert(view.skip(i as int).drop_first() =~= view.skip(i + 1));
        assert(view[i as int] == (ms@[i as int].0@, value_json(ms@[i as int].1)));
        if str_eq(ms[i].0.as_str(), key) {
            return Some(i);
        }
        i = i + 1;
    }
    None
}

/// What `serde_json::from_str::<Vec<String>>` reads from a text: the
/// strings of a JSON array of strings, or `None` for any other text.
pub uninterp spec fn json_string_list(text: Seq<char>) -> Option<Seq<Seq<char>>>;

/// `serde_json::from_str::<Vec<String>>`: the strings read, as
/// `json_string_list` names them, or `None` exactly where it fails.
#[verifier::external_body]
pub(crate) fn parse_string_list(text: &str) -> (r: Option<Vec<String>>)
    ensures
        match r {
            Some(v) => json_string_list(text@) == Some(strs(v@)),
            None => json_string_list(text@) is None,
        },
{
    serde_json::from_str::<Vec<String>>(text).ok()
}

} // verus!
