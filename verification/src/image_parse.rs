//! Image text-extraction service: the request payload and the result.
use vstd::prelude::*;

use crate::json::{as_text, json_parsed, member, member_text, parse_value, text_of, value_json, JsonView};
use crate::text::{chars_of, find_chars, first_occurrence, is_whitespace, is_ws, opt_str, string_from_chars, trim, trimmed};

verus! {

/// Text extracted from an image by the service.
#[derive(Debug, Clone)]
pub struct ImageParseResponse {
    /// The description taken from the response.
    pub description: String,
    /// The response as received (JSON or plain text), kept for recovery.
    pub raw_response: String,
}

/// The marker that ends a data-URL prefix.
pub open spec fn base64_marker() -> Seq<char> {
    "base64,"@
}

/// The characters that are not white space, in order.
pub open spec fn without_ws(s: Seq<char>) -> Seq<char>
    decreases s.len(),
{
    if s.len() == 0 {
        seq![]
    } else if is_ws(s.last()) {
        without_ws(s.drop_last())
    } else {
        without_ws(s.drop_last()).push(s.last())
    }
}

/// The base64 payload of an image: what follows the first `base64,` (all
/// of it where there is none), with every white-space character removed.
pub open spec fn base64_payload(s: Seq<char>) -> Seq<char> {
    match first_occurrence(s, base64_marker()) {
        Some(i) => without_ws(s.skip(i + base64_marker().len())),
        None => without_ws(s),
    }
}

/// Accepts a `data:image/...;base64,` prefix and white space around and
/// inside the payload.
pub fn normalize_base64_payload(image_base64: &str) -> (r: String)
    ensures
        r@ == base64_payload(image_base64@),
{
    proof {
        reveal_strlit("base64,");
    }
    let cs = chars_of(image_base64);
    let n = cs.len();
    let marker = chars_of("base64,");
    assert(marker@ == base64_marker());
    let from: usize = match find_chars(cs.as_slice(), marker.as_slice()) {
        Some(i) => {
            proof {
                crate::text::lemma_occurs_of_first(cs@, marker@);
                assert(crate::text::occurs_at(cs@, marker@, i as int));
            }
            i + 7
        },
        None => 0,
    };
    assert(cs@.skip(from as int) == match first_occurrence(cs@, marker@) {
        Some(i) => cs@.skip(i + 7),
        None => cs@,
    });
    let mut out: Vec<char> = Vec::new();
    let mut i: usize = from;
    while i < cs.len()
        invariant
            from <= i <= cs@.len(),
            out@ == without_ws(cs@.subrange(from as int, i as int)),
        decreases cs.len() - i,
    {
        let c = cs[i];
        assert(cs@.subrange(from as int, i + 1).drop_last() =~= cs@.subrange(from as int, i as int));
        if !is_whitespace(c) {
            out.push(c);
        }
        i = i + 1;
    }
    assert(cs@.subrange(from as int, cs@.len() as int) =~= cs@.skip(from as int));
    string_from_chars(out.as_slice())
}


/// No white space is left in a payload.
pub proof fn lemma_payload_has_no_ws(s: Seq<char>)
    ensures
        forall|k: int| 0 <= k < base64_payload(s).len() ==> !is_ws(#[trigger] base64_payload(s)[k]),
{
    match first_occurrence(s, base64_marker()) {
        Some(i) => lemma_without_ws_clean(s.skip(i + base64_marker().len())),
        None => lemma_without_ws_clean(s),
    }
}

proof fn lemma_without_ws_clean(s: Seq<char>)
    ensures
        forall|k: int| 0 <= k < without_ws(s).len() ==> !is_ws(#[trigger] without_ws(s)[k]),
    decreases s.len(),
{
    if s.len() > 0 {
        lemma_without_ws_clean(s.drop_last());
        let prev = without_ws(s.drop_last());
        if !is_ws(s.last()) {
            assert forall|k: int| 0 <= k < without_ws(s).len() implies !is_ws(#[trigger] without_ws(s)[k]) by {
                if k < prev.len() {
                    assert(without_ws(s)[k] == prev[k]);
                }
            }
        }
    }
}

/// The fields a reply may carry its description in, in the order tried.
pub open spec fn description_keys() -> Seq<Seq<char>> {
    seq!["image_content"@, "description"@, "text"@, "content"@, "result"@]
}

/// The text of the first of `keys` that names a string member of `j`.
pub open spec fn first_text_member(j: JsonView, keys: Seq<Seq<char>>) -> Option<Seq<char>>
    decreases keys.len(),
{
    if keys.len() == 0 {
        None
    } else {
        match as_text(member(j, keys[0])) {
            Some(t) => Some(t),
            None => first_text_member(j, keys.drop_first()),
        }
    }
}

/// The description in the first of the `nested` members of `j` that has
/// one: the member itself when it is a string, else its first string field.
pub open spec fn nested_description(j: JsonView, nested: Seq<Seq<char>>) -> Option<Seq<char>>
    decreases nested.len(),
{
    if nested.len() == 0 {
        None
    } else {
        let rest = nested_description(j, nested.drop_first());
        match member(j, nested[0]) {
            Some(n) => match as_text(Some(n)) {
                Some(t) => Some(t),
                None => match first_text_member(n, description_keys()) {
                    Some(t) => Some(t),
                    None => rest,
                },
            },
            None => rest,
        }
    }
}

/// The description a reply value carries: a top-level field, else one in
/// `data` or `result` (or that member itself as a string), else the value
/// itself when it is a string.
pub open spec fn description_of(j: JsonView) -> Option<Seq<char>> {
    match first_text_member(j, description_keys()) {
        Some(t) => Some(t),
        None => match nested_description(j, seq!["data"@, "result"@]) {
            Some(t) => Some(t),
            None => as_text(Some(j)),
        },
    }
}

/// The description extracted from a reply: empty for a blank reply, else
/// the trimmed description of a JSON reply that carries one, else the
/// trimmed reply itself.
pub open spec fn description_text(raw: Seq<char>) -> Seq<char> {
    let t = trim(raw);
    if t.len() == 0 {
        seq![]
    } else {
        match json_parsed(t) {
            Some(j) => match description_of(j) {
                Some(d) => trim(d),
                None => t,
            },
            None => t,
        }
    }
}

fn first_description_field(v: &serde_json::Value) -> (r: Option<String>)
    ensures
        opt_str(r) == first_text_member(value_json(*v), description_keys()),
{
    let ghost j = value_json(*v);
    let ghost k = description_keys();
    proof {
        reveal_with_fuel(first_text_member, 6);
        assert(k.drop_first() =~= seq!["description"@, "text"@, "content"@, "result"@]);
        assert(k.drop_first().drop_first() =~= seq!["text"@, "content"@, "result"@]);
        assert(k.drop_first().drop_first().drop_first() =~= seq!["content"@, "result"@]);
        assert(k.drop_first().drop_first().drop_first().drop_first() =~= seq!["result"@]);
        assert(k.drop_first().drop_first().drop_first().drop_first().drop_first() =~= Seq::<Seq<char>>::empty());
    }
    if let Some(t) = member_text(v, "image_content") {
        return Some(t);
    }
    if let Some(t) = member_text(v, "description") {
        return Some(t);
    }
    if let Some(t) = member_text(v, "text") {
        return Some(t);
    }
    if let Some(t) = member_text(v, "content") {
        return Some(t);
    }
    member_text(v, "result")
}

fn nested_field_description(v: &serde_json::Value, key: &str) -> (r: Option<String>)
    ensures
        opt_str(r) == match member(value_json(*v), key@) {
            Some(n) => match as_text(Some(n)) {
                Some(t) => Some(t),
                None => first_text_member(n, description_keys()),
            },
            None => None,
        },
{
    match crate::json::get_member(v, key) {
        Some(n) => match text_of(&n) {
            Some(t) => Some(t),
            None => first_description_field(&n),
        },
        None => None,
    }
}

/// The description a parsed reply carries, if any.
pub fn find_description_value(value: &serde_json::Value) -> (r: Option<String>)
    ensures
        opt_str(r) == description_of(value_json(*value)),
{
    let ghost j = value_json(*value);
    if let Some(t) = first_description_field(value) {
        return Some(t);
    }
    proof {
        let nk = seq!["data"@, "result"@];
        reveal_with_fuel(nested_description, 3);
        assert(nk.drop_first() =~= seq!["result"@]);
        assert(nk.drop_first().drop_first() =~= Seq::<Seq<char>>::empty());
    }
    if let Some(t) = nested_field_description(value, "data") {
        return Some(t);
    }
    if let Some(t) = nested_field_description(value, "result") {
        return Some(t);
    }
    text_of(value)
}

/// The description text in a reply of the image service: a known field of a
/// JSON reply, trimmed, or else the trimmed reply itself.
pub fn extract_description(raw_response: &str) -> (r: String)
    ensures
        r@ == description_text(raw_response@),
{
    if crate::text::is_blank(raw_response) {
        return String::new();
    }
    let t = trimmed(raw_response);
    match parse_value(t.as_str()) {
        Some(value) => match find_description_value(&value) {
            Some(desc) => trimmed(desc.as_str()),
            None => t,
        },
        None => t,
    }
}

} // verus!
