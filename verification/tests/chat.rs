use htknow::api::chat::{select_sources, ChatMessage, ChatRequest, ChatRole, SseDecoder};
use htknow::api::error::ApiError;

#[test]
fn upstream_sse_handles_fragmented_unicode_crlf_and_multiline() {
    let bytes =
        ": keepalive\r\ndata: {\"text\":\"螺旋桨\"}\r\n\r\ndata: first\ndata: second\n\ndata: [DONE]".as_bytes();
    let mut decoder = SseDecoder::default();
    let mut events = Vec::new();
    for byte in bytes {
        events.extend(decoder.feed(&[*byte]).unwrap());
    }
    events.extend(decoder.finish().unwrap());
    assert_eq!(events, vec!["{\"text\":\"螺旋桨\"}", "first\nsecond", "[DONE]"]);
}

#[test]
fn sse_split_points_do_not_change_events() {
    let text = "data: a\n\ndata: 螺\r\ndata: b\n\n";
    let whole = {
        let mut d = SseDecoder::new();
        let mut ev = d.feed(text.as_bytes()).unwrap();
        ev.extend(d.finish().unwrap());
        ev
    };
    for cut in 0..text.len() {
        let mut d = SseDecoder::new();
        let mut ev = d.feed(&text.as_bytes()[..cut]).unwrap();
        ev.extend(d.feed(&text.as_bytes()[cut..]).unwrap());
        ev.extend(d.finish().unwrap());
        assert_eq!(ev, whole);
    }
    assert_eq!(whole, vec!["a", "螺\nb"]);
}

#[test]
fn sse_rejects_invalid_utf8() {
    let mut d = SseDecoder::new();
    assert!(d.feed(b"data: \xff\n\n").is_err());
}

fn message(role: ChatRole, content: &str) -> ChatMessage {
    ChatMessage { role, content: content.to_string() }
}

#[test]
fn chat_rejects_invalid_history_and_limits() {
    assert_eq!(ChatRole::from_name("system"), None);
    let inputs = [
        ChatRequest { question: " ".to_string(), kb_id: None, messages: vec![] },
        ChatRequest { question: "q".to_string(), kb_id: None, messages: vec![message(ChatRole::User, "old")] },
        ChatRequest { question: "q".to_string(), kb_id: Some(0), messages: vec![] },
    ];
    for input in inputs {
        assert!(input.validate().is_err());
    }
}

#[test]
fn chat_accepts_paired_history() {
    let req = ChatRequest {
        question: "q".to_string(),
        kb_id: Some(3),
        messages: vec![message(ChatRole::User, "a"), message(ChatRole::Assistant, "b")],
    };
    assert!(req.validate().is_ok());
    let long = ChatRequest { question: "x".repeat(4001), kb_id: None, messages: vec![] };
    assert!(matches!(long.validate(), Err(ApiError::BadRequest(_))));
}

#[test]
fn sources_respect_budget_and_skip_blank() {
    let contents = vec![" ".to_string(), "abc".to_string(), "x".repeat(5000), "tail".to_string()];
    let picks = select_sources(&contents);
    assert_eq!(picks.len(), 3);
    assert_eq!((picks[0].id, picks[0].index, picks[0].content.as_str()), (1, 1, "abc"));
    assert_eq!((picks[1].id, picks[1].index, picks[1].content.chars().count()), (2, 2, 4000));
    assert_eq!((picks[2].id, picks[2].index, picks[2].content.as_str()), (3, 3, "tail"));
    let many: Vec<String> = (0..12).map(|i| format!("doc{i}")).collect();
    assert_eq!(select_sources(&many).len(), 8);
    let big: Vec<String> = (0..8).map(|_| "y".repeat(4000)).collect();
    let total: usize = select_sources(&big).iter().map(|p| p.content.chars().count()).sum();
    assert_eq!(total, 24000);
}

use htknow::api::chat::{chat_base_url, llm_chat_url, retrieval_query};

#[test]
fn follow_up_questions_use_recent_user_turns() {
    let msgs = vec![
        message(ChatRole::User, "first"),
        message(ChatRole::Assistant, "answer"),
        message(ChatRole::User, "second"),
        message(ChatRole::Assistant, "answer2"),
        message(ChatRole::User, "third"),
        message(ChatRole::Assistant, "answer3"),
    ];
    assert_eq!(retrieval_query("  它呢？ ", &msgs), "它呢？\nsecond\nthird");
    assert_eq!(retrieval_query("q", &vec![]), "q");
    let long = vec![message(ChatRole::User, &"x".repeat(600)), message(ChatRole::Assistant, "a")];
    assert_eq!(retrieval_query("q", &long), format!("q\n{}", "x".repeat(500)));
}

#[test]
fn model_addresses() {
    assert_eq!(chat_base_url("http://h/v1/chat/completions"), "http://h/v1");
    assert_eq!(chat_base_url("http://h/v1"), "http://h/v1");
    assert!(matches!(llm_chat_url(None), Err(ApiError::BadRequest(_))));
    assert!(llm_chat_url(Some("  ".to_string())).is_err());
    assert_eq!(llm_chat_url(Some("http://x".to_string())).unwrap(), "http://x");
}

#[test]
fn chat_role_names_are_lower_case() {
    assert_eq!(ChatRole::from_name("user"), Some(ChatRole::User));
    assert_eq!(ChatRole::from_name("assistant"), Some(ChatRole::Assistant));
    assert_eq!(ChatRole::from_name("User"), None);
    assert_eq!(ChatRole::from_name(""), None);
}
