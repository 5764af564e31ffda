//! Retrieval-augmented chat without stored sessions: request validation,
//! source selection and the decoder for the upstream event stream.
use vstd::prelude::*;
use vstd::utf8::*;

use crate::api::error::{is_bad_request, ApiResult, ApiError};
use crate::text::{
    all_ws, chars_of, chars_utf8_len, extend_chars, has_prefix, is_blank, lemma_utf8_len_concat, slice_chars,
    starts_with_chars, str_eq, str_from_utf8, string_from_chars, trim, trim_range, utf8_len,
};

verus! {

/// Who wrote a history message.
#[derive(Debug, Clone, Copy, PartialEq, Eq, Structural)]
pub enum ChatRole {
    User,
    Assistant,
}

/// The role a history message names, in lower case as clients write it;
/// any other name (such as `system`) is refused.
pub open spec fn role_named(name: Seq<char>) -> Option<ChatRole> {
    if name == "user"@ {
        Some(ChatRole::User)
    } else if name == "assistant"@ {
        Some(ChatRole::Assistant)
    } else {
        None
    }
}

impl ChatRole {
    /// The role with this name, or `None` when clients may not claim it.
    pub fn from_name(name: &str) -> (r: Option<ChatRole>)
        ensures
            r == role_named(name@),
    {
        if str_eq(name, "user") {
            Some(ChatRole::User)
        } else if str_eq(name, "assistant") {
            Some(ChatRole::Assistant)
        } else {
            None
        }
    }
}

/// One message of the conversation history that the client resubmits.
#[derive(Debug)]
pub struct ChatMessage {
    pub role: ChatRole,
    pub content: String,
}

/// A question with its history; the history only gives context, never evidence.
#[derive(Debug)]
pub struct ChatRequest {
    pub question: String,
    pub kb_id: Option<i64>,
    pub messages: Vec<ChatMessage>,
}

/// Longest question, in characters.
pub const MAX_QUESTION_CHARS: usize = 4000;

/// Most history messages.
pub const MAX_HISTORY_MESSAGES: usize = 12;

/// Most characters over all history messages.
pub const MAX_HISTORY_CHARS: usize = 16000;

pub const MSG_INVALID_QUESTION: &'static str = "问题不能为空，且不能超过 4000 字符";

pub const MSG_INVALID_KB: &'static str = "无效的知识库 ID";

pub const MSG_HISTORY_TOO_LONG: &'static str = "对话历史过长，请开始新的对话";

pub const MSG_HISTORY_NOT_PAIRED: &'static str = "历史消息必须按 user、assistant 成对提交";

/// Characters over all history messages.
pub open spec fn history_chars(msgs: Seq<ChatMessage>) -> int
    decreases msgs.len(),
{
    if msgs.len() == 0 {
        0
    } else {
        history_chars(msgs.drop_last()) + msgs.last().content@.len()
    }
}

/// The role a history message at position `i` must have: user first, then alternating.
pub open spec fn expected_role(i: int) -> ChatRole {
    if i % 2 == 0 {
        ChatRole::User
    } else {
        ChatRole::Assistant
    }
}

/// Message at `i` has the wrong role or a blank content.
pub open spec fn bad_message(msgs: Seq<ChatMessage>, i: int) -> bool {
    msgs[i].role != expected_role(i) || all_ws(msgs[i].content@)
}

/// The message a request is rejected with, in the order the checks run;
/// `None` for a valid request.
pub open spec fn chat_request_error(req: ChatRequest) -> Option<Seq<char>> {
    let msgs = req.messages@;
    if all_ws(req.question@) || req.question@.len() > MAX_QUESTION_CHARS {
        Some(MSG_INVALID_QUESTION@)
    } else if req.kb_id matches Some(id) && id <= 0 {
        Some(MSG_INVALID_KB@)
    } else if msgs.len() > MAX_HISTORY_MESSAGES || history_chars(msgs) > MAX_HISTORY_CHARS {
        Some(MSG_HISTORY_TOO_LONG@)
    } else if exists|i: int| 0 <= i < msgs.len() && #[trigger] bad_message(msgs, i) {
        Some(MSG_HISTORY_NOT_PAIRED@)
    } else if msgs.len() % 2 != 0 {
        Some(MSG_HISTORY_NOT_PAIRED@)
    } else {
        None
    }
}

impl ChatRequest {
    /// Checks the question, the knowledge-base id and the shape and size of the history.
    #[verifier::loop_isolation(false)]
    pub fn validate(&self) -> (r: ApiResult<()>)
        ensures
            match chat_request_error(*self) {
                None => r is Ok,
                Some(msg) => r matches Err(e) && is_bad_request(e, msg),
            },
    {
        if is_blank(self.question.as_str()) || self.question.as_str().unicode_len() > MAX_QUESTION_CHARS {
            return Err(ApiError::bad_request(MSG_INVALID_QUESTION));
        }
        if let Some(id) = self.kb_id {
            if id <= 0 {
                return Err(ApiError::bad_request(MSG_INVALID_KB));
            }
        }
        let msgs = &self.messages;
        let n = msgs.len();
        if n > MAX_HISTORY_MESSAGES {
            return Err(ApiError::bad_request(MSG_HISTORY_TOO_LONG));
        }
        let mut total: usize = 0;
        let mut i: usize = 0;
        while i < n
            invariant
                i <= n == msgs@.len(),
                total == history_chars(msgs@.take(i as int)),
                total <= MAX_HISTORY_CHARS,
            decreases n - i,
        {
            let c = msgs[i].content.as_str().unicode_len();
            proof {
                assert(msgs@.take(i + 1).drop_last() =~= msgs@.take(i as int));
            }
            if c > MAX_HISTORY_CHARS - total {
                proof {
                    lemma_history_chars_prefix(msgs@, i + 1);
                }
                return Err(ApiError::bad_request(MSG_HISTORY_TOO_LONG));
            }
            total = total + c;
            i = i + 1;
        }
        assert(msgs@.take(n as int) =~= msgs@);
        let mut j: usize = 0;
        while j < n
            invariant
                j <= n == msgs@.len(),
                forall|k: int| 0 <= k < j ==> !#[trigger] bad_message(msgs@, k),
            decreases n - j,
        {
            let m = &msgs[j];
            let want = if j % 2 == 0 {
                ChatRole::User
            } else {
                ChatRole::Assistant
            };
            if m.role != want || is_blank(m.content.as_str()) {
                assert(bad_message(msgs@, j as int));
                return Err(ApiError::bad_request(MSG_HISTORY_NOT_PAIRED));
            }
            j = j + 1;
        }
        if n % 2 != 0 {
            return Err(ApiError::bad_request(MSG_HISTORY_NOT_PAIRED));
        }
        Ok(())
    }
}

/// Characters of a prefix never exceed those of the whole history.
proof fn lemma_history_chars_prefix(msgs: Seq<ChatMessage>, k: int)
    requires
        0 <= k <= msgs.len(),
    ensures
        history_chars(msgs.take(k)) <= history_chars(msgs),
    decreases msgs.len() - k,
{
    if k < msgs.len() {
        lemma_history_chars_prefix(msgs, k + 1);
        assert(msgs.take(k + 1).drop_last() =~= msgs.take(k));
    } else {
        assert(msgs.take(k) =~= msgs);
    }
}

/// Most search results that become sources.
pub const MAX_SOURCES: usize = 8;

/// Characters over all sources handed to the model.
pub const SOURCE_BUDGET: usize = 24000;

/// Characters of a single source.
pub const SOURCE_MAX_CHARS: usize = 4000;

/// A search result chosen as a citable source: its citation number, its
/// position among the results, and its content cut to the budget.
#[derive(Debug)]
pub struct ChatSource {
    pub id: usize,
    pub index: usize,
    pub content: String,
}

/// Smaller of two integers.
pub open spec fn min_int(a: int, b: int) -> int {
    if a <= b {
        a
    } else {
        b
    }
}

/// Sources chosen from result `i` on, with `remaining` characters of budget
/// and `next_id` the next citation number: each of the first `MAX_SOURCES`
/// results is cut to the budget and to `SOURCE_MAX_CHARS`; blank cuts are
/// skipped; selection stops when the budget is used up.
pub open spec fn select_from(contents: Seq<Seq<char>>, i: int, remaining: int, next_id: int) -> Seq<
    (int, int, Seq<char>),
>
    decreases contents.len() - i,
{
    if i < 0 || i >= contents.len() || i >= MAX_SOURCES {
        seq![]
    } else {
        let c = contents[i].take(
            min_int(min_int(remaining, SOURCE_MAX_CHARS as int), contents[i].len() as int),
        );
        if all_ws(c) {
            select_from(contents, i + 1, remaining, next_id)
        } else {
            let r2 = remaining - c.len();
            seq![(next_id, i, c)] + if r2 == 0 {
                Seq::<(int, int, Seq<char>)>::empty()
            } else {
                select_from(contents, i + 1, r2, next_id + 1)
            }
        }
    }
}

/// Views of the picks.
pub open spec fn picks_view(v: Seq<ChatSource>) -> Seq<(int, int, Seq<char>)> {
    v.map_values(|p: ChatSource| (p.id as int, p.index as int, p.content@))
}

/// Chooses, in order, the result contents that are handed to the model as
/// citable sources `[1]`, `[2]`, …
pub fn select_sources(contents: &Vec<String>) -> (r: Vec<ChatSource>)
    ensures
        picks_view(r@) == select_from(strings_view(contents@), 0, SOURCE_BUDGET as int, 1),
{
    let ghost cv = strings_view(contents@);
    let n = contents.len();
    let mut picks: Vec<ChatSource> = Vec::new();
    let mut remaining: usize = SOURCE_BUDGET;
    let mut i: usize = 0;
    proof {
        assert(picks_view(picks@) + select_from(cv, 0, SOURCE_BUDGET as int, 1) =~= select_from(
            cv,
            0,
            SOURCE_BUDGET as int,
            1,
        ));
    }
    while i < n && i < MAX_SOURCES
        invariant_except_break
            i <= n == contents@.len(),
            cv == strings_view(contents@),
            0 < remaining <= SOURCE_BUDGET,
            picks@.len() <= i,
            select_from(cv, 0, SOURCE_BUDGET as int, 1) == picks_view(picks@) + select_from(
                cv,
                i as int,
                remaining as int,
                (picks@.len() + 1) as int,
            ),
        ensures
            select_from(cv, 0, SOURCE_BUDGET as int, 1) == picks_view(picks@),
        decreases n - i,
    {
        let ghost before = picks_view(picks@);
        let all = chars_of(contents[i].as_str());
        let limit = if remaining < SOURCE_MAX_CHARS {
            remaining
        } else {
            SOURCE_MAX_CHARS
        };
        let take = if limit < all.len() {
            limit
        } else {
            all.len()
        };
        let cut = slice_chars(all.as_slice(), 0, take);
        proof {
            assert(cv[i as int] == contents@[i as int]@);
            assert(cut@ =~= cv[i as int].take(take as int));
        }
        if all_blank(cut.as_slice()) {
            i = i + 1;
            continue ;
        }
        remaining = remaining - take;
        let id = picks.len() + 1;
        let content = string_from_chars(cut.as_slice());
        picks.push(ChatSource { id, index: i, content });
        proof {
            assert(picks_view(picks@) =~= before + seq![(id as int, i as int, cut@)]);
        }
        if remaining == 0 {
            proof {
                assert(picks_view(picks@) + Seq::<(int, int, Seq<char>)>::empty() =~= picks_view(
                    picks@,
                ));
                assert(before + (seq![(id as int, i as int, cut@)] + Seq::<(int, int, Seq<char>)>::empty())
                    =~= picks_view(picks@));
            }
            break ;
        }
        proof {
            assert(before + (seq![(id as int, i as int, cut@)] + select_from(
                cv,
                i + 1,
                remaining as int,
                id + 1,
            )) =~= picks_view(picks@) + select_from(cv, i + 1, remaining as int, id + 1));
        }
        i = i + 1;
    }
    proof {
        if i >= n || i >= MAX_SOURCES {
            assert(picks_view(picks@) + Seq::<(int, int, Seq<char>)>::empty() =~= picks_view(picks@));
        }
    }
    picks
}

/// Whether every character is white space.
fn all_blank(v: &[char]) -> (b: bool)
    ensures
        b == all_ws(v@),
{
    let n = v.len();
    let mut i: usize = 0;
    while i < n
        invariant
            i <= n == v@.len(),
            forall|k: int| 0 <= k < i ==> crate::text::is_ws(#[trigger] v@[k]),
        decreases n - i,
    {
        if !crate::text::is_whitespace(v[i]) {
            return false;
        }
        i = i + 1;
    }
    true
}

/// Sum of the lengths of the picked contents.
pub open spec fn picked_chars(s: Seq<(int, int, Seq<char>)>) -> int
    decreases s.len(),
{
    if s.len() == 0 {
        0
    } else {
        picked_chars(s.drop_last()) + s.last().2.len()
    }
}

proof fn lemma_picked_chars_prepend(x: (int, int, Seq<char>), s: Seq<(int, int, Seq<char>)>)
    ensures
        picked_chars(seq![x] + s) == x.2.len() + picked_chars(s),
    decreases s.len(),
{
    if s.len() == 0 {
        assert(seq![x] + s =~= seq![x]);
        assert(seq![x].drop_last() =~= Seq::<(int, int, Seq<char>)>::empty());
        assert(picked_chars(seq![x]) == picked_chars(Seq::<(int, int, Seq<char>)>::empty()) + x.2.len());
    } else {
        lemma_picked_chars_prepend(x, s.drop_last());
        assert((seq![x] + s).drop_last() =~= seq![x] + s.drop_last());
        assert((seq![x] + s).last() == s.last());
        assert(picked_chars(seq![x] + s) == picked_chars(seq![x] + s.drop_last()) + s.last().2.len());
    }
}

proof fn lemma_select_from_props(contents: Seq<Seq<char>>, i: int, remaining: int, next_id: int)
    requires
        remaining >= 0,
    ensures
        ({
            let sel = select_from(contents, i, remaining, next_id);
            &&& picked_chars(sel) <= remaining
            &&& forall|k: int|
                0 <= k < sel.len() ==> {
                    &&& (#[trigger] sel[k]).0 == next_id + k
                    &&& i <= sel[k].1 < contents.len()
                    &&& sel[k].1 < MAX_SOURCES
                    &&& sel[k].2.len() <= SOURCE_MAX_CHARS
                    &&& !all_ws(sel[k].2)
                    &&& sel[k].2 == contents[sel[k].1].take(sel[k].2.len() as int)
                }
            &&& forall|a: int, b: int| 0 <= a < b < sel.len() ==> sel[a].1 < sel[b].1
        }),
    decreases contents.len() - i,
{
    if i < 0 || i >= contents.len() || i >= MAX_SOURCES {
    } else {
        let c = contents[i].take(
            min_int(min_int(remaining, SOURCE_MAX_CHARS as int), contents[i].len() as int),
        );
        if all_ws(c) {
            lemma_select_from_props(contents, i + 1, remaining, next_id);
        } else {
            let r2 = remaining - c.len();
            let rest = if r2 == 0 {
                Seq::<(int, int, Seq<char>)>::empty()
            } else {
                select_from(contents, i + 1, r2, next_id + 1)
            };
            if r2 != 0 {
                lemma_select_from_props(contents, i + 1, r2, next_id + 1);
            }
            lemma_picked_chars_prepend((next_id, i, c), rest);
            let sel = seq![(next_id, i, c)] + rest;
            assert forall|k: int| 0 < k < sel.len() implies sel[k] == rest[k - 1] by {}
        }
    }
}

/// The sources handed to the model never exceed `SOURCE_BUDGET` characters in
/// total nor `SOURCE_MAX_CHARS` each; they come from the first `MAX_SOURCES`
/// results, in order and each at most once; each is a non-blank prefix of its
/// result; and they are numbered 1, 2, … without gaps.
pub proof fn lemma_sources_bounded(contents: Seq<Seq<char>>)
    ensures
        ({
            let sel = select_from(contents, 0, SOURCE_BUDGET as int, 1);
            &&& picked_chars(sel) <= SOURCE_BUDGET
            &&& forall|k: int|
                0 <= k < sel.len() ==> {
                    &&& (#[trigger] sel[k]).0 == k + 1
                    &&& 0 <= sel[k].1 < contents.len()
                    &&& sel[k].1 < MAX_SOURCES
                    &&& sel[k].2.len() <= SOURCE_MAX_CHARS
                    &&& !all_ws(sel[k].2)
                    &&& sel[k].2 == contents[sel[k].1].take(sel[k].2.len() as int)
                }
            &&& forall|a: int, b: int| 0 <= a < b < sel.len() ==> sel[a].1 < sel[b].1
        }),
{
    lemma_select_from_props(contents, 0, SOURCE_BUDGET as int, 1);
}

/// The budget left after the first `m` picks.
pub open spec fn budget_after(remaining: int, sel: Seq<(int, int, Seq<char>)>, m: int) -> int {
    remaining - picked_chars(sel.take(m))
}

proof fn lemma_budget_after_prepend(remaining: int, x: (int, int, Seq<char>), rest: Seq<(int, int, Seq<char>)>, m: int)
    requires
        1 <= m <= rest.len() + 1,
    ensures
        budget_after(remaining, seq![x] + rest, m) == budget_after(remaining - x.2.len(), rest, m - 1),
{
    assert((seq![x] + rest).take(m) =~= seq![x] + rest.take(m - 1));
    lemma_picked_chars_prepend(x, rest.take(m - 1));
}

proof fn lemma_select_from_greedy(contents: Seq<Seq<char>>, i: int, remaining: int, next_id: int)
    requires
        0 <= i,
        remaining >= 0,
    ensures
        ({
            let sel = select_from(contents, i, remaining, next_id);
            &&& forall|k: int|
                0 <= k < sel.len() ==> (#[trigger] sel[k]).2 == contents[sel[k].1].take(
                    min_int(min_int(budget_after(remaining, sel, k), SOURCE_MAX_CHARS as int), contents[sel[k].1].len() as int),
                )
            &&& forall|j: int, m: int|
                #![trigger contents[j], sel.take(m)]
                i <= j < contents.len() && j < MAX_SOURCES && 0 <= m <= sel.len() && (forall|k: int|
                    0 <= k < m ==> (#[trigger] sel[k]).1 < j) && (forall|k: int| m <= k < sel.len() ==> (#[trigger] sel[k]).1
                    > j) && budget_after(remaining, sel, m) > 0 ==> all_ws(
                    contents[j].take(min_int(min_int(budget_after(remaining, sel, m), SOURCE_MAX_CHARS as int), contents[j].len() as int)),
                )
        }),
    decreases contents.len() - i,
{
    let sel = select_from(contents, i, remaining, next_id);
    assert(sel.take(0) =~= Seq::<(int, int, Seq<char>)>::empty());
    assert(picked_chars(sel.take(0)) == 0);
    if i >= contents.len() || i >= MAX_SOURCES {
    } else {
        let c = contents[i].take(min_int(min_int(remaining, SOURCE_MAX_CHARS as int), contents[i].len() as int));
        if all_ws(c) {
            lemma_select_from_greedy(contents, i + 1, remaining, next_id);
            lemma_select_from_props(contents, i + 1, remaining, next_id);
            assert forall|j: int, m: int|
                #![trigger contents[j], sel.take(m)]
                i <= j < contents.len() && j < MAX_SOURCES && 0 <= m <= sel.len() && (forall|k: int|
                    0 <= k < m ==> (#[trigger] sel[k]).1 < j) && (forall|k: int| m <= k < sel.len() ==> (#[trigger] sel[k]).1
                    > j) && budget_after(remaining, sel, m) > 0 implies all_ws(
                    contents[j].take(min_int(min_int(budget_after(remaining, sel, m), SOURCE_MAX_CHARS as int), contents[j].len() as int)),
                ) by {
                if j == i {
                    if m > 0 {
                        assert(sel[0].1 < j);
                    }
                    assert(sel.take(m) =~= sel.take(0));
                }
            }
        } else {
            let r2 = remaining - c.len();
            let x = (next_id, i, c);
            let rest = if r2 == 0 {
                Seq::<(int, int, Seq<char>)>::empty()
            } else {
                select_from(contents, i + 1, r2, next_id + 1)
            };
            assert(sel == seq![x] + rest);
            if r2 != 0 {
                lemma_select_from_greedy(contents, i + 1, r2, next_id + 1);
            }
            assert forall|k: int| 0 <= k < sel.len() implies (#[trigger] sel[k]).2 == contents[sel[k].1].take(
                min_int(min_int(budget_after(remaining, sel, k), SOURCE_MAX_CHARS as int), contents[sel[k].1].len() as int),
            ) by {
                if k > 0 {
                    lemma_budget_after_prepend(remaining, x, rest, k + 1);
                    lemma_budget_after_prepend(remaining, x, rest, k);
                    assert(sel[k] == rest[k - 1]);
                }
            }
            assert forall|j: int, m: int|
                #![trigger contents[j], sel.take(m)]
                i <= j < contents.len() && j < MAX_SOURCES && 0 <= m <= sel.len() && (forall|k: int|
                    0 <= k < m ==> (#[trigger] sel[k]).1 < j) && (forall|k: int| m <= k < sel.len() ==> (#[trigger] sel[k]).1
                    > j) && budget_after(remaining, sel, m) > 0 implies all_ws(
                    contents[j].take(min_int(min_int(budget_after(remaining, sel, m), SOURCE_MAX_CHARS as int), contents[j].len() as int)),
                ) by {
                assert(sel[0].1 == i);
                if j == i {
                    if m > 0 {
                        assert(sel[0].1 < j);
                    } else {
                        assert(sel[0].1 > j);
                    }
                } else {
                    if m == 0 {
                        assert(sel[0].1 > j);
                    }
                    lemma_budget_after_prepend(remaining, x, rest, m);
                    if r2 == 0 {
                        assert(rest.take(m - 1) =~= Seq::<(int, int, Seq<char>)>::empty());
                        assert(picked_chars(rest.take(m - 1)) == 0);
                    } else {
                        assert forall|k: int| 0 <= k < m - 1 implies (#[trigger] rest[k]).1 < j by {
                            assert(rest[k] == sel[k + 1]);
                        }
                        assert forall|k: int| m - 1 <= k < rest.len() implies (#[trigger] rest[k]).1 > j by {
                            assert(rest[k] == sel[k + 1]);
                        }
                        assert(contents[j] == contents[j]);
                        assert(rest.take(m - 1) == rest.take(m - 1));
                    }
                }
            }
        }
    }
}

/// The sources use the budget greedily: each picked source is its result cut
/// to exactly what is left of the budget (and to `SOURCE_MAX_CHARS`); and a
/// result among the first `MAX_SOURCES` that is not picked either came after
/// the budget ran out or was blank once cut to the budget left. So a result
/// longer than what is left is cut, not dropped.
pub proof fn lemma_sources_fill_budget(contents: Seq<Seq<char>>)
    ensures
        ({
            let sel = select_from(contents, 0, SOURCE_BUDGET as int, 1);
            &&& forall|k: int|
                0 <= k < sel.len() ==> (#[trigger] sel[k]).2 == contents[sel[k].1].take(
                    min_int(
                        min_int(SOURCE_BUDGET - picked_chars(sel.take(k)), SOURCE_MAX_CHARS as int),
                        contents[sel[k].1].len() as int,
                    ),
                )
            &&& forall|j: int, m: int|
                #![trigger contents[j], sel.take(m)]
                0 <= j < contents.len() && j < MAX_SOURCES && 0 <= m <= sel.len() && (forall|k: int|
                    0 <= k < m ==> (#[trigger] sel[k]).1 < j) && (forall|k: int| m <= k < sel.len() ==> (#[trigger] sel[k]).1
                    > j) && SOURCE_BUDGET - picked_chars(sel.take(m)) > 0 ==> all_ws(
                    contents[j].take(
                        min_int(
                            min_int(SOURCE_BUDGET - picked_chars(sel.take(m)), SOURCE_MAX_CHARS as int),
                            contents[j].len() as int,
                        ),
                    ),
                )
        }),
{
    lemma_select_from_greedy(contents, 0, SOURCE_BUDGET as int, 1);
}

/// Upper bound on buffered, not yet delivered event bytes.
pub const SSE_LIMIT: usize = 1048576;

/// Errors of the event stream decoder.
#[derive(Debug, PartialEq, Eq, Structural)]
pub enum SseError {
    /// More than `SSE_LIMIT` bytes would be held for one event.
    TooLarge,
    /// A line is not valid UTF-8.
    InvalidUtf8,
}

/// Drops every trailing carriage return, as `trim_end_matches('\r')` does.
pub open spec fn trim_end_cr(s: Seq<char>) -> Seq<char>
    decreases s.len(),
{
    if s.len() > 0 && s.last() == '\r' {
        trim_end_cr(s.drop_last())
    } else {
        s
    }
}

/// The field name that marks a data line.
pub open spec fn data_field() -> Seq<char> {
    seq!['d', 'a', 't', 'a', ':']
}

/// The lines of an event joined with line feeds.
pub open spec fn join_lines(parts: Seq<Seq<char>>) -> Seq<char>
    decreases parts.len(),
{
    if parts.len() == 0 {
        seq![]
    } else if parts.len() == 1 {
        parts[0]
    } else {
        join_lines(parts.drop_last()) + seq!['\n'] + parts.last()
    }
}

/// Value of a data line: after the field name, one optional space is dropped.
pub open spec fn field_value(line: Seq<char>) -> Seq<char> {
    let v = line.skip(5);
    if v.len() > 0 && v[0] == ' ' {
        v.skip(1)
    } else {
        v
    }
}

/// Effect of one decoded line on the buffered data lines: the new buffer and
/// the events the line completes.
pub open spec fn apply_line(data: Seq<Seq<char>>, line: Seq<char>) -> (Seq<Seq<char>>, Seq<Seq<char>>) {
    if line.len() == 0 {
        if data.len() > 0 {
            (seq![], seq![join_lines(data)])
        } else {
            (data, seq![])
        }
    } else if has_prefix(line, data_field()) {
        (data.push(field_value(line)), seq![])
    } else {
        (data, seq![])
    }
}

/// Position of the first line feed.
pub open spec fn first_newline(p: Seq<u8>) -> Option<int>
    decreases p.len(),
{
    if p.len() == 0 {
        None
    } else if p[0] == 10u8 {
        Some(0)
    } else {
        match first_newline(p.drop_first()) {
            Some(i) => Some(i + 1),
            None => None,
        }
    }
}

/// A raw line (without its line feed) decoded and stripped of trailing
/// carriage returns; `None` when it is not UTF-8.
pub open spec fn decode_line(raw: Seq<u8>) -> Option<Seq<char>> {
    if valid_utf8(raw) {
        Some(trim_end_cr(decode_utf8(raw)))
    } else {
        None
    }
}

/// Consumes every complete line of `p`: the bytes left over, the buffered
/// data lines, the events completed, and whether every line decoded.
pub open spec fn drain(p: Seq<u8>, data: Seq<Seq<char>>) -> (
    Seq<u8>,
    Seq<Seq<char>>,
    Seq<Seq<char>>,
    bool,
)
    decreases p.len(),
{
    match first_newline(p) {
        Some(e) => if 0 <= e < p.len() {
            let rest = p.subrange(e + 1, p.len() as int);
            match decode_line(p.subrange(0, e)) {
                Some(line) => {
                    let (d2, ev) = apply_line(data, line);
                    let r = drain(rest, d2);
                    (r.0, r.1, ev + r.2, r.3)
                },
                None => (rest, data, seq![], false),
            }
        } else {
            (p, data, seq![], true)
        },
        None => (p, data, seq![], true),
    }
}

/// Total encoded size of the buffered data lines.
pub open spec fn total_bytes(data: Seq<Seq<char>>) -> nat
    decreases data.len(),
{
    if data.len() == 0 {
        0
    } else {
        total_bytes(data.drop_last()) + utf8_len(data.last())
    }
}

/// Event-stream decoder that buffers bytes, so that UTF-8 sequences and CRLF
/// pairs split by the network, comments and multi-line data are all handled.
pub struct SseDecoder {
    pending: Vec<u8>,
    data: Vec<Vec<char>>,
    data_bytes: usize,
}

/// Views of a vector of strings.
pub open spec fn strings_view(v: Seq<String>) -> Seq<Seq<char>> {
    v.map_values(|s: String| s@)
}

/// Views of a vector of character vectors.
pub open spec fn lines_view(v: Seq<Vec<char>>) -> Seq<Seq<char>> {
    v.map_values(|s: Vec<char>| s@)
}

impl View for SseDecoder {
    type V = (Seq<u8>, Seq<Seq<char>>);

    /// Undelivered bytes and the data lines of the event being read.
    closed spec fn view(&self) -> (Seq<u8>, Seq<Seq<char>>) {
        (self.pending@, lines_view(self.data@))
    }
}

impl SseDecoder {
    /// The counter of buffered data bytes agrees with the buffered lines.
    pub closed spec fn wf(&self) -> bool {
        self.data_bytes as nat == total_bytes(lines_view(self.data@))
    }

    /// What `feed` returns and leaves behind, given the state before and the new bytes.
    pub open spec fn feed_spec(
        before: (Seq<u8>, Seq<Seq<char>>),
        bytes: Seq<u8>,
        after: (Seq<u8>, Seq<Seq<char>>),
        r: Result<Seq<Seq<char>>, SseError>,
    ) -> bool {
        let full = before.0 + bytes;
        if full.len() + total_bytes(before.1) > SSE_LIMIT {
            &&& r == Err::<Seq<Seq<char>>, SseError>(SseError::TooLarge)
            &&& after == (full, before.1)
        } else {
            let d = drain(full, before.1);
            &&& after == (d.0, d.1)
            &&& d.3 ==> r == Ok::<Seq<Seq<char>>, SseError>(d.2)
            &&& !d.3 ==> r == Err::<Seq<Seq<char>>, SseError>(SseError::InvalidUtf8)
        }
    }

    /// An empty decoder.
    pub fn new() -> (d: SseDecoder)
        ensures
            d.wf(),
            d@ == (Seq::<u8>::empty(), Seq::<Seq<char>>::empty()),
    {
        let d = SseDecoder { pending: Vec::new(), data: Vec::new(), data_bytes: 0 };
        assert(lines_view(d.data@) =~= Seq::<Seq<char>>::empty());
        d
    }

    /// Feeds bytes in; returns the data of every event that a blank line completed.
    pub fn feed(&mut self, bytes: &[u8]) -> (r: Result<Vec<String>, SseError>)
        requires
            old(self).wf(),
        ensures
            final(self).wf(),
            Self::feed_spec(
                old(self)@,
                bytes@,
                final(self)@,
                match r {
                    Ok(v) => Ok(strings_view(v@)),
                    Err(e) => Err(e),
                },
            ),
    {
        let ghost d0 = lines_view(self.data@);
        extend_bytes(&mut self.pending, bytes);
        let ghost full = self.pending@;
        let n = self.pending.len();
        if self.data_bytes > SSE_LIMIT || n > SSE_LIMIT - self.data_bytes {
            return Err(SseError::TooLarge);
        }
        let mut events: Vec<String> = Vec::new();
        let mut start: usize = 0;
        proof {
            assert(full.subrange(0, n as int) =~= full);
            assert(strings_view(events@) =~= Seq::<Seq<char>>::empty());
            assert(drain(full, d0).2 =~= Seq::<Seq<char>>::empty() + drain(full, d0).2);
        }
        loop
            invariant
                start <= n == self.pending@.len(),
                self.pending@ == full,
                old(self)@.0 + bytes@ == full,
                old(self)@.1 == d0,
                full.len() + total_bytes(d0) <= SSE_LIMIT,
                self.wf(),
                self.data_bytes + (n - start) <= SSE_LIMIT,
                ({
                    let r0 = drain(full, d0);
                    let r = drain(full.subrange(start as int, n as int), lines_view(self.data@));
                    &&& r0.0 == r.0
                    &&& r0.1 == r.1
                    &&& r0.3 == r.3
                    &&& r0.2 == strings_view(events@) + r.2
                }),
            ensures
                start <= n == self.pending@.len(),
                self.pending@ == full,
                old(self)@.0 + bytes@ == full,
                old(self)@.1 == d0,
                full.len() + total_bytes(d0) <= SSE_LIMIT,
                self.wf(),
                forall|i: int| start <= i < n ==> full[i] != 10u8,
                ({
                    let r0 = drain(full, d0);
                    let r = drain(full.subrange(start as int, n as int), lines_view(self.data@));
                    &&& r0.0 == r.0
                    &&& r0.1 == r.1
                    &&& r0.3 == r.3
                    &&& r0.2 == strings_view(events@) + r.2
                }),
            decreases n - start,
        {
            let mut k = start;
            while k < n && self.pending[k] != 10u8
                invariant
                    start <= k <= n == self.pending@.len(),
                    self.pending@ == full,
                    forall|i: int| start <= i < k ==> full[i] != 10u8,
                decreases n - k,
            {
                k = k + 1;
            }
            if k == n {
                break ;
            }
            let ghost rp = full.subrange(start as int, n as int);
            let ghost dv = lines_view(self.data@);
            proof {
                lemma_first_newline_at(rp, k - start);
                assert(rp.subrange(k - start + 1, rp.len() as int) =~= full.subrange(k + 1, n as int));
                assert(rp.subrange(0, k - start) =~= full.subrange(start as int, k as int));
            }
            let raw = copy_bytes(self.pending.as_slice(), start, k);
            let decoded = str_from_utf8(raw.as_slice());
            match decoded {
                None => {
                    proof {
                        assert(decode_line(rp.subrange(0, k - start)) is None);
                        assert(drain(rp, dv) == (
                            full.subrange(k + 1, n as int),
                            dv,
                            Seq::<Seq<char>>::empty(),
                            false,
                        ));
                    }
                    let rest = self.pending.split_off(k + 1);
                    self.pending = rest;
                    return Err(SseError::InvalidUtf8);
                },
                Some(text) => {
                    let cs = chars_of(text);
                    let line = strip_trailing_cr(cs);
                    proof {
                        lemma_encode_decode_len(raw@);
                        lemma_trim_end_cr_prefix(decode_utf8(raw@));
                        lemma_utf8_len_prefix(decode_utf8(raw@), line@.len() as int);
                    }
                    self.take_line(line, &mut events);
                    start = k + 1;
                },
            }
        }
        proof {
            let rp = full.subrange(start as int, n as int);
            lemma_first_newline_none(rp);
            assert(drain(rp, lines_view(self.data@)).2 =~= Seq::<Seq<char>>::empty());
            assert(strings_view(events@) + Seq::<Seq<char>>::empty() =~= strings_view(events@));
        }
        let rest = self.pending.split_off(start);
        self.pending = rest;
        Ok(events)
    }

    /// Applies one decoded line to the buffered data, appending a completed event.
    fn take_line(&mut self, line: Vec<char>, events: &mut Vec<String>)
        requires
            old(self).wf(),
            old(self).data_bytes + utf8_len(line@) <= SSE_LIMIT,
        ensures
            final(self).wf(),
            final(self).pending@ == old(self).pending@,
            ({
                let (d2, ev) = apply_line(lines_view(old(self).data@), line@);
                &&& lines_view(final(self).data@) == d2
                &&& strings_view(final(events)@) == strings_view(old(events)@) + ev
                &&& final(self).data_bytes <= old(self).data_bytes + utf8_len(line@)
            }),
    {
        let ghost dv = lines_view(self.data@);
        if line.len() == 0 {
            if self.data.len() > 0 {
                let joined = join_data(&self.data);
                let s = string_from_chars(joined.as_slice());
                events.push(s);
                self.data = Vec::new();
                self.data_bytes = 0;
                proof {
                    assert(lines_view(self.data@) =~= Seq::<Seq<char>>::empty());
                    assert(strings_view(events@) =~= strings_view(old(events)@) + seq![join_lines(dv)]);
                }
            } else {
                assert(strings_view(events@) =~= strings_view(old(events)@) + Seq::<Seq<char>>::empty());
            }
        } else {
            let field: [char; 5] = ['d', 'a', 't', 'a', ':'];
            assert(field@ =~= data_field());
            if starts_with_chars(line.as_slice(), field.as_slice()) {
                let mut from: usize = 5;
                if line.len() > 5 && line[5] == ' ' {
                    from = 6;
                }
                let value = slice_chars(line.as_slice(), from, line.len());
                proof {
                    let v = line@.skip(5);
                    if v.len() > 0 && v[0] == ' ' {
                        assert(value@ =~= v.skip(1));
                    } else {
                        assert(value@ =~= v);
                    }
                    assert(value@ == field_value(line@));
                    lemma_utf8_len_suffix(line@, from as int);
                }
                let bytes = chars_utf8_len(value.as_slice());
                self.data.push(value);
                self.data_bytes = self.data_bytes + bytes;
                proof {
                    assert(lines_view(self.data@) =~= dv.push(field_value(line@)));
                    assert(lines_view(self.data@).drop_last() =~= dv);
                    assert(strings_view(events@) =~= strings_view(old(events)@) + Seq::<Seq<char>>::empty());
                }
            } else {
                assert(strings_view(events@) =~= strings_view(old(events)@) + Seq::<Seq<char>>::empty());
            }
        }
    }

    /// Flushes the stream at its end, as if a blank line closed it.
    pub fn finish(&mut self) -> (r: Result<Vec<String>, SseError>)
        requires
            old(self).wf(),
        ensures
            final(self).wf(),
            Self::feed_spec(
                old(self)@,
                seq![10u8, 10u8],
                final(self)@,
                match r {
                    Ok(v) => Ok(strings_view(v@)),
                    Err(e) => Err(e),
                },
            ),
    {
        let end: [u8; 2] = [10u8, 10u8];
        assert(end@ =~= seq![10u8, 10u8]);
        self.feed(end.as_slice())
    }
}

impl Default for SseDecoder {
    fn default() -> (d: SseDecoder)
        ensures
            d.wf(),
            d@ == (Seq::<u8>::empty(), Seq::<Seq<char>>::empty()),
    {
        SseDecoder::new()
    }
}

/// The buffered data lines joined with line feeds.
fn join_data(data: &Vec<Vec<char>>) -> (j: Vec<char>)
    requires
        data@.len() > 0,
    ensures
        j@ == join_lines(lines_view(data@)),
{
    let ghost dv = lines_view(data@);
    let mut j: Vec<char> = Vec::new();
    extend_chars(&mut j, data[0].as_slice());
    proof {
        assert(dv.take(1).len() == 1);
        assert(j@ =~= dv[0]);
    }
    let n = data.len();
    let mut i: usize = 1;
    while i < n
        invariant
            1 <= i <= n == data@.len(),
            dv == lines_view(data@),
            j@ == join_lines(dv.take(i as int)),
        decreases n - i,
    {
        j.push('\n');
        extend_chars(&mut j, data[i].as_slice());
        proof {
            let t = dv.take(i + 1);
            assert(t.drop_last() =~= dv.take(i as int));
            assert(t.last() == data@[i as int]@);
            assert(j@ =~= join_lines(dv.take(i as int)) + seq!['\n'] + t.last());
        }
        i = i + 1;
    }
    assert(dv.take(n as int) =~= dv);
    j
}

/// Copy of `b[a..e]`.
fn copy_bytes(b: &[u8], a: usize, e: usize) -> (w: Vec<u8>)
    requires
        a <= e <= b@.len(),
    ensures
        w@ == b@.subrange(a as int, e as int),
{
    let mut w: Vec<u8> = Vec::new();
    let mut i = a;
    while i < e
        invariant
            a <= i <= e <= b@.len(),
            w@ == b@.subrange(a as int, i as int),
        decreases e - i,
    {
        w.push(b[i]);
        i = i + 1;
        assert(b@.subrange(a as int, i as int) =~= b@.subrange(a as int, i - 1) + seq![b@[i - 1]]);
    }
    w
}

/// Appends bytes to a buffer.
fn extend_bytes(out: &mut Vec<u8>, more: &[u8])
    ensures
        final(out)@ == old(out)@ + more@,
{
    let n = more.len();
    let mut i: usize = 0;
    while i < n
        invariant
            i <= n == more@.len(),
            out@ == old(out)@ + more@.subrange(0, i as int),
        decreases n - i,
    {
        out.push(more[i]);
        i = i + 1;
        assert(more@.subrange(0, i as int) =~= more@.subrange(0, i - 1) + seq![more@[i - 1]]);
    }
    assert(more@.subrange(0, n as int) =~= more@);
}

/// The characters without their trailing carriage returns.
fn strip_trailing_cr(cs: Vec<char>) -> (r: Vec<char>)
    ensures
        r@ == trim_end_cr(cs@),
{
    let mut e = cs.len();
    assert(cs@.subrange(0, e as int) =~= cs@);
    while e > 0 && cs[e - 1] == '\r'
        invariant
            e <= cs@.len(),
            trim_end_cr(cs@) == trim_end_cr(cs@.subrange(0, e as int)),
        decreases e,
    {
        proof {
            let t = cs@.subrange(0, e as int);
            assert(t.drop_last() =~= cs@.subrange(0, e - 1));
        }
        e = e - 1;
    }
    proof {
        assert(cs@.subrange(0, cs@.len() as int) =~= cs@);
    }
    slice_chars(cs.as_slice(), 0, e)
}

proof fn lemma_first_newline_at(p: Seq<u8>, m: int)
    requires
        0 <= m < p.len(),
        p[m] == 10u8,
        forall|i: int| 0 <= i < m ==> p[i] != 10u8,
    ensures
        first_newline(p) == Some(m),
    decreases m,
{
    if m > 0 {
        let t = p.drop_first();
        assert forall|i: int| 0 <= i < m - 1 implies t[i] != 10u8 by {
            assert(t[i] == p[i + 1]);
        }
        lemma_first_newline_at(t, m - 1);
    }
}

proof fn lemma_first_newline_none(p: Seq<u8>)
    requires
        forall|i: int| 0 <= i < p.len() ==> p[i] != 10u8,
    ensures
        first_newline(p) is None,
    decreases p.len(),
{
    if p.len() > 0 {
        let t = p.drop_first();
        assert forall|i: int| 0 <= i < t.len() implies t[i] != 10u8 by {
            assert(t[i] == p[i + 1]);
        }
        lemma_first_newline_none(t);
    }
}

proof fn lemma_trim_end_cr_prefix(s: Seq<char>)
    ensures
        trim_end_cr(s).len() <= s.len(),
        trim_end_cr(s) == s.subrange(0, trim_end_cr(s).len() as int),
    decreases s.len(),
{
    if s.len() > 0 && s.last() == '\r' {
        lemma_trim_end_cr_prefix(s.drop_last());
        assert(s.drop_last().subrange(0, trim_end_cr(s).len() as int) =~= s.subrange(
            0,
            trim_end_cr(s).len() as int,
        ));
    } else {
        assert(s.subrange(0, s.len() as int) =~= s);
    }
}

proof fn lemma_encode_decode_len(b: Seq<u8>)
    requires
        valid_utf8(b),
    ensures
        utf8_len(decode_utf8(b)) == b.len(),
{
    broadcast use decode_utf8_encode_utf8;
    assert(encode_utf8(decode_utf8(b)) == b);
}

proof fn lemma_utf8_len_prefix(s: Seq<char>, k: int)
    requires
        0 <= k <= s.len(),
    ensures
        utf8_len(s.subrange(0, k)) <= utf8_len(s),
{
    assert(s =~= s.subrange(0, k) + s.subrange(k, s.len() as int));
    lemma_utf8_len_concat(s.subrange(0, k), s.subrange(k, s.len() as int));
}

proof fn lemma_utf8_len_suffix(s: Seq<char>, k: int)
    requires
        0 <= k <= s.len(),
    ensures
        utf8_len(s.subrange(k, s.len() as int)) <= utf8_len(s),
{
    assert(s =~= s.subrange(0, k) + s.subrange(k, s.len() as int));
    lemma_utf8_len_concat(s.subrange(0, k), s.subrange(k, s.len() as int));
}

/// The first line feed of a prefix is also the first one of any extension.
proof fn lemma_first_newline_append(p: Seq<u8>, b: Seq<u8>)
    requires
        first_newline(p) is Some,
    ensures
        first_newline(p + b) == first_newline(p),
    decreases p.len(),
{
    if p.len() > 0 && p[0] != 10u8 {
        assert((p + b).drop_first() =~= p.drop_first() + b);
        lemma_first_newline_append(p.drop_first(), b);
    }
}

proof fn lemma_first_newline_bounds(p: Seq<u8>)
    ensures
        first_newline(p) matches Some(e) ==> 0 <= e < p.len() && p[e] == 10u8,
    decreases p.len(),
{
    if p.len() > 0 && p[0] != 10u8 {
        lemma_first_newline_bounds(p.drop_first());
    }
}

/// Draining a buffer and then the bytes appended to what is left equals
/// draining the whole buffer at once.
pub proof fn lemma_drain_append(p: Seq<u8>, b: Seq<u8>, data: Seq<Seq<char>>)
    requires
        drain(p, data).3,
    ensures
        ({
            let r1 = drain(p, data);
            let r2 = drain(r1.0 + b, r1.1);
            drain(p + b, data) == (r2.0, r2.1, r1.2 + r2.2, r2.3)
        }),
    decreases p.len(),
{
    lemma_first_newline_bounds(p);
    match first_newline(p) {
        Some(e) => {
            lemma_first_newline_append(p, b);
            let rest = p.subrange(e + 1, p.len() as int);
            assert((p + b).subrange(e + 1, (p + b).len() as int) =~= rest + b);
            assert((p + b).subrange(0, e) =~= p.subrange(0, e));
            let line = decode_line(p.subrange(0, e)).unwrap();
            let (d2, ev) = apply_line(data, line);
            lemma_drain_append(rest, b, d2);
            let r1 = drain(rest, d2);
            let r2 = drain(r1.0 + b, r1.1);
            assert(ev + (r1.2 + r2.2) =~= (ev + r1.2) + r2.2);
        },
        None => {
            let r2 = drain(p + b, data);
            assert(Seq::<Seq<char>>::empty() + r2.2 =~= r2.2);
        },
    }
}

/// Splitting the stream between two `feed` calls does not change what is
/// decoded: when both calls succeed, feeding the joined bytes at once (within
/// the size limit) yields the same decoder state and the events of both calls,
/// in order.
pub proof fn lemma_feed_split(
    before: (Seq<u8>, Seq<Seq<char>>),
    a: Seq<u8>,
    b: Seq<u8>,
    mid: (Seq<u8>, Seq<Seq<char>>),
    after: (Seq<u8>, Seq<Seq<char>>),
    e1: Seq<Seq<char>>,
    e2: Seq<Seq<char>>,
)
    requires
        SseDecoder::feed_spec(before, a, mid, Ok(e1)),
        SseDecoder::feed_spec(mid, b, after, Ok(e2)),
        (before.0 + a + b).len() + total_bytes(before.1) <= SSE_LIMIT,
    ensures
        SseDecoder::feed_spec(before, a + b, after, Ok(e1 + e2)),
{
    let full1 = before.0 + a;
    assert(before.0 + (a + b) =~= full1 + b);
    lemma_drain_append(full1, b, before.1);
}


/// What one `feed` call makes of a decoder state and some bytes: the state
/// it leaves and what it returns (see `SseDecoder::feed_spec`).
pub open spec fn feed_outcome(before: (Seq<u8>, Seq<Seq<char>>), bytes: Seq<u8>) -> (
    (Seq<u8>, Seq<Seq<char>>),
    Result<Seq<Seq<char>>, SseError>,
) {
    let full = before.0 + bytes;
    if full.len() + total_bytes(before.1) > SSE_LIMIT {
        ((full, before.1), Err(SseError::TooLarge))
    } else {
        let d = drain(full, before.1);
        ((d.0, d.1), if d.3 { Ok(d.2) } else { Err(SseError::InvalidUtf8) })
    }
}

/// `feed_outcome` is what `feed_spec` allows, and nothing else.
pub proof fn lemma_feed_outcome(
    before: (Seq<u8>, Seq<Seq<char>>),
    bytes: Seq<u8>,
    after: (Seq<u8>, Seq<Seq<char>>),
    r: Result<Seq<Seq<char>>, SseError>,
)
    ensures
        SseDecoder::feed_spec(before, bytes, after, r) <==> (after, r) == feed_outcome(before, bytes),
{
}

/// Feeding pieces in successive `feed` calls: the state reached and the
/// events of all the calls in order, or `None` once a call fails.
pub open spec fn feed_pieces(before: (Seq<u8>, Seq<Seq<char>>), pieces: Seq<Seq<u8>>) -> Option<(
    (Seq<u8>, Seq<Seq<char>>),
    Seq<Seq<char>>,
)>
    decreases pieces.len(),
{
    if pieces.len() == 0 {
        Some((before, seq![]))
    } else {
        match feed_pieces(before, pieces.drop_last()) {
            Some((mid, e1)) => match feed_outcome(mid, pieces.last()) {
                (after, Ok(e2)) => Some((after, e1 + e2)),
                (_, Err(_)) => None,
            },
            None => None,
        }
    }
}

/// When every call of a piecewise feed succeeds, it agrees with feeding the
/// whole at once.
proof fn lemma_feed_pieces_agree(before: (Seq<u8>, Seq<Seq<char>>), pieces: Seq<Seq<u8>>)
    requires
        pieces.len() >= 1,
        feed_pieces(before, pieces) is Some,
        (before.0 + pieces.flatten()).len() + total_bytes(before.1) <= SSE_LIMIT,
    ensures
        feed_pieces(before, pieces) matches Some((after, events)) && feed_outcome(before, pieces.flatten()) == (
            after,
            Ok::<Seq<Seq<char>>, SseError>(events),
        ) && feed_outcome(feed_outcome(before, pieces.flatten()).0, seq![10u8, 10u8]) == feed_outcome(
            after,
            seq![10u8, 10u8],
        ),
    decreases pieces.len(),
{
    let init = pieces.drop_last();
    let last = pieces.last();
    assert(init.push(last) =~= pieces);
    init.lemma_flatten_push(last);
    if pieces.len() == 1 {
        assert(init.flatten() =~= Seq::<u8>::empty());
        assert(pieces.flatten() =~= last);
        let (after, r) = feed_outcome(before, last);
        assert(feed_pieces(before, init) == Some((before, Seq::<Seq<char>>::empty())));
        if let Ok(e2) = r {
            assert(Seq::<Seq<char>>::empty() + e2 =~= e2);
        }
    } else {
        let (mid, e1) = feed_pieces(before, init).unwrap();
        assert((before.0 + init.flatten()).len() <= (before.0 + pieces.flatten()).len());
        lemma_feed_pieces_agree(before, init);
        let (after, r) = feed_outcome(mid, last);
        let e2 = r.get_Ok_0();
        lemma_feed_outcome(before, init.flatten(), mid, Ok(e1));
        lemma_feed_outcome(mid, last, after, Ok(e2));
        assert(before.0 + init.flatten() + last =~= before.0 + pieces.flatten());
        lemma_feed_split(before, init.flatten(), last, mid, after, e1, e2);
        assert(init.flatten() + last =~= pieces.flatten());
        lemma_feed_outcome(before, pieces.flatten(), after, Ok(e1 + e2));
    }
}

/// Data lines never hold more bytes than the lines they were read from.
proof fn lemma_apply_line_size(data: Seq<Seq<char>>, raw: Seq<u8>)
    requires
        valid_utf8(raw),
    ensures
        total_bytes(apply_line(data, decode_line(raw).unwrap()).0) <= total_bytes(data) + raw.len(),
{
    let dec = decode_utf8(raw);
    let line = trim_end_cr(dec);
    lemma_encode_decode_len(raw);
    lemma_trim_end_cr_prefix(dec);
    lemma_utf8_len_prefix(dec, line.len() as int);
    if line.len() > 0 && has_prefix(line, data_field()) {
        let v = line.skip(5);
        assert(v =~= line.subrange(5, line.len() as int));
        lemma_utf8_len_suffix(line, 5);
        if v.len() > 0 && v[0] == ' ' {
            assert(v.skip(1) =~= v.subrange(1, v.len() as int));
            lemma_utf8_len_suffix(v, 1);
        }
        let d2 = data.push(field_value(line));
        assert(d2.drop_last() =~= data);
    } else if line.len() == 0 && data.len() > 0 {
        assert(total_bytes(Seq::<Seq<char>>::empty()) == 0);
    }
}

/// Draining never makes the undelivered bytes and buffered data together
/// larger than they were.
proof fn lemma_drain_size(p: Seq<u8>, data: Seq<Seq<char>>)
    ensures
        drain(p, data).0.len() + total_bytes(drain(p, data).1) <= p.len() + total_bytes(data),
    decreases p.len(),
{
    lemma_first_newline_bounds(p);
    if let Some(e) = first_newline(p) {
        let rest = p.subrange(e + 1, p.len() as int);
        let raw = p.subrange(0, e);
        if let Some(line) = decode_line(raw) {
            lemma_apply_line_size(data, raw);
            lemma_drain_size(rest, apply_line(data, line).0);
        }
    }
}

/// A line that fails to decode in a prefix fails in the whole too: when the
/// whole drains cleanly, so does every prefix.
proof fn lemma_drain_prefix_ok(p: Seq<u8>, b: Seq<u8>, data: Seq<Seq<char>>)
    requires
        drain(p + b, data).3,
    ensures
        drain(p, data).3,
    decreases p.len(),
{
    lemma_first_newline_bounds(p);
    if let Some(e) = first_newline(p) {
        lemma_first_newline_append(p, b);
        let rest = p.subrange(e + 1, p.len() as int);
        assert((p + b).subrange(e + 1, (p + b).len() as int) =~= rest + b);
        assert((p + b).subrange(0, e) =~= p.subrange(0, e));
        if let Some(line) = decode_line(p.subrange(0, e)) {
            lemma_drain_prefix_ok(rest, b, apply_line(data, line).0);
        }
    }
}

/// Within the size limit, a stream whose complete lines are all UTF-8
/// (so that one `feed` of the whole succeeds) succeeds piece by piece too,
/// however it is cut.
proof fn lemma_feed_pieces_succeed(before: (Seq<u8>, Seq<Seq<char>>), pieces: Seq<Seq<u8>>)
    requires
        pieces.len() >= 1,
        (before.0 + pieces.flatten()).len() + total_bytes(before.1) <= SSE_LIMIT,
        drain(before.0 + pieces.flatten(), before.1).3,
    ensures
        feed_pieces(before, pieces) is Some,
    decreases pieces.len(),
{
    let init = pieces.drop_last();
    let last = pieces.last();
    assert(init.push(last) =~= pieces);
    init.lemma_flatten_push(last);
    let p = before.0 + init.flatten();
    assert(p + last =~= before.0 + pieces.flatten());
    if pieces.len() == 1 {
        assert(init.flatten() =~= Seq::<u8>::empty());
        assert(feed_pieces(before, init) == Some((before, Seq::<Seq<char>>::empty())));
        assert(before.0 + last =~= before.0 + pieces.flatten());
    } else {
        lemma_drain_prefix_ok(p, last, before.1);
        lemma_feed_pieces_succeed(before, init);
        lemma_feed_pieces_agree(before, init);
        let d = drain(p, before.1);
        lemma_drain_size(p, before.1);
        lemma_drain_append(p, last, before.1);
        let (mid, e1) = feed_pieces(before, init).unwrap();
        assert(mid == (d.0, d.1));
        assert((mid.0 + last).len() + total_bytes(mid.1) <= SSE_LIMIT);
        assert(drain(mid.0 + last, mid.1).3);
    }
}

/// However a stream is cut into pieces (inside a UTF-8 character or between
/// `\r` and `\n` too), feeding the pieces one after another to a decoder
/// succeeds, gives the same events and leaves the same state as feeding the
/// whole stream at once, whenever the whole stays within the size limit and
/// its complete lines are valid UTF-8 (that is, one `feed` of the whole
/// succeeds); so `finish` then also returns the same.
pub proof fn lemma_feed_pieces(before: (Seq<u8>, Seq<Seq<char>>), pieces: Seq<Seq<u8>>)
    requires
        pieces.len() >= 1,
        (before.0 + pieces.flatten()).len() + total_bytes(before.1) <= SSE_LIMIT,
        feed_outcome(before, pieces.flatten()).1 is Ok,
    ensures
        feed_pieces(before, pieces) matches Some((after, events)) && feed_outcome(before, pieces.flatten()) == (
            after,
            Ok::<Seq<Seq<char>>, SseError>(events),
        ) && feed_outcome(feed_outcome(before, pieces.flatten()).0, seq![10u8, 10u8]) == feed_outcome(
            after,
            seq![10u8, 10u8],
        ),
{
    lemma_feed_pieces_succeed(before, pieces);
    lemma_feed_pieces_agree(before, pieces);
}

pub const MSG_LLM_URL_REQUIRED: &'static str = "请配置 LLM_API_URL（完整的 chat/completions 接口地址）";

/// The chat-completions address to use: the configured one unless it is
/// missing or blank, which is a bad request.
pub fn llm_chat_url(api_url: Option<String>) -> (r: ApiResult<String>)
    ensures
        match api_url {
            Some(u) => if all_ws(u@) {
                r matches Err(e) && is_bad_request(e, MSG_LLM_URL_REQUIRED@)
            } else {
                r matches Ok(v) && v@ == u@
            },
            None => r matches Err(e) && is_bad_request(e, MSG_LLM_URL_REQUIRED@),
        },
{
    match api_url {
        Some(u) => if is_blank(u.as_str()) {
            Err(ApiError::bad_request(MSG_LLM_URL_REQUIRED))
        } else {
            Ok(u)
        },
        None => Err(ApiError::bad_request(MSG_LLM_URL_REQUIRED)),
    }
}

/// The base address of the model API: the chat-completions address without
/// its `/chat/completions` ending.
pub open spec fn chat_base(url: Seq<char>) -> Seq<char> {
    let suffix = "/chat/completions"@;
    if crate::text::has_suffix(url, suffix) { url.take(url.len() - suffix.len()) } else { url }
}

/// The base address of the model API.
pub fn chat_base_url(url: &str) -> (r: String)
    ensures
        r@ == chat_base(url@),
{
    proof {
        reveal_strlit("/chat/completions");
    }
    let cs = chars_of(url);
    let suffix = chars_of("/chat/completions");
    if crate::text::ends_with_chars(cs.as_slice(), suffix.as_slice()) {
        let base = slice_chars(cs.as_slice(), 0, cs.len() - suffix.len());
        string_from_chars(base.as_slice())
    } else {
        string_from_chars(cs.as_slice())
    }
}

/// Characters of an earlier question added to a search.
pub const FOLLOW_UP_CHARS: usize = 500;

/// The texts of the user's messages, latest first.
pub open spec fn user_texts_latest_first(msgs: Seq<ChatMessage>) -> Seq<Seq<char>>
    decreases msgs.len(),
{
    if msgs.len() == 0 {
        seq![]
    } else {
        let rest = user_texts_latest_first(msgs.drop_last());
        if msgs.last().role == ChatRole::User {
            seq![msgs.last().content@] + rest
        } else {
            rest
        }
    }
}

/// The search text of a question: the trimmed question followed, one line
/// each, by the first `FOLLOW_UP_CHARS` characters of the user's two latest
/// earlier questions, oldest first, so follow-ups such as "it" find their
/// subject; earlier answers are never used.
pub open spec fn retrieval_text(question: Seq<char>, msgs: Seq<ChatMessage>) -> Seq<char> {
    let prior = user_texts_latest_first(msgs);
    let cut = |t: Seq<char>| seq!['\n'] + (if t.len() > FOLLOW_UP_CHARS { t.take(FOLLOW_UP_CHARS as int) } else { t });
    if prior.len() >= 2 {
        trim(question) + cut(prior[1]) + cut(prior[0])
    } else if prior.len() == 1 {
        trim(question) + cut(prior[0])
    } else {
        trim(question)
    }
}

/// The search text for a question in a conversation.
pub fn retrieval_query(question: &str, messages: &Vec<ChatMessage>) -> (r: String)
    ensures
        r@ == retrieval_text(question@, messages@),
{
    let mut latest: Option<usize> = None;
    let mut second: Option<usize> = None;
    let mut i: usize = 0;
    while i < messages.len()
        invariant
            i <= messages@.len(),
            match latest {
                None => second is None && user_texts_latest_first(messages@.take(i as int)).len() == 0,
                Some(a) => a < i && user_texts_latest_first(messages@.take(i as int))[0] == messages@[a as int].content@
                    && match second {
                        None => user_texts_latest_first(messages@.take(i as int)).len() == 1,
                        Some(b) => b < i && user_texts_latest_first(messages@.take(i as int)).len() >= 2
                            && user_texts_latest_first(messages@.take(i as int))[1] == messages@[b as int].content@,
                    },
            },
        decreases messages.len() - i,
    {
        let ghost before = user_texts_latest_first(messages@.take(i as int));
        assert(messages@.take(i + 1).drop_last() =~= messages@.take(i as int));
        if messages[i].role == ChatRole::User {
            second = latest;
            latest = Some(i);
            assert(user_texts_latest_first(messages@.take(i + 1)) == seq![messages@[i as int].content@] + before);
        }
        i = i + 1;
    }
    assert(messages@.take(messages@.len() as int) =~= messages@);
    let all = chars_of(question);
    let (a, b) = trim_range(all.as_slice());
    let mut out = slice_chars(all.as_slice(), a, b);
    let ghost q = out@;
    if let Some(s) = second {
        out.push('\n');
        let c = chars_of(messages[s].content.as_str());
        let n = if c.len() > FOLLOW_UP_CHARS { FOLLOW_UP_CHARS } else { c.len() };
        let cut = slice_chars(c.as_slice(), 0, n);
        extend_chars(&mut out, cut.as_slice());
    }
    let ghost mid = out@;
    if let Some(l) = latest {
        out.push('\n');
        let c = chars_of(messages[l].content.as_str());
        let n = if c.len() > FOLLOW_UP_CHARS { FOLLOW_UP_CHARS } else { c.len() };
        let cut = slice_chars(c.as_slice(), 0, n);
        extend_chars(&mut out, cut.as_slice());
    }
    proof {
        let prior = user_texts_latest_first(messages@);
        let cut = |t: Seq<char>| seq!['\n'] + (if t.len() > FOLLOW_UP_CHARS { t.take(FOLLOW_UP_CHARS as int) } else { t });
        if prior.len() >= 2 {
            assert(mid =~= q + cut(prior[1]));
            assert(out@ =~= q + cut(prior[1]) + cut(prior[0]));
        } else if prior.len() == 1 {
            assert(out@ =~= q + cut(prior[0]));
        } else {
            assert(out@ =~= q);
        }
    }
    string_from_chars(out.as_slice())
}

} // verus!
