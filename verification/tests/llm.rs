use cissp_coach::llm::{
    anthropic_messages, anthropic_step, collect_event, http_error_message, openai_step,
    provider_call, AnthropicOptions, ChatMessage, LlmError, LlmEvent, ProviderCall, SseLines,
    StreamStep,
};

fn msg(role: &str, content: &str) -> ChatMessage {
    ChatMessage { role: role.to_string(), content: content.to_string() }
}

#[test]
fn sse_lines_hold_back_partial_lines() {
    let mut s = SseLines::new();
    let out = s.feed("data: {\"a\":1}\r\ndata: [DO");
    assert_eq!(out, vec!["{\"a\":1}".to_string()]);
    let out = s.feed("NE]\n: comment\nevent: x\ndata:   \n");
    assert_eq!(out, vec!["[DONE]".to_string(), "".to_string()]);
    assert!(s.pending.is_empty());
    let out = s.feed("data: tail");
    assert!(out.is_empty());
    assert_eq!(s.pending.iter().collect::<String>(), "data: tail");
}

#[test]
fn openai_payloads_become_steps() {
    assert!(matches!(openai_step("[DONE]"), StreamStep::Done));
    assert!(matches!(openai_step(""), StreamStep::Skip));
    assert!(matches!(openai_step("{not json"), StreamStep::Skip));
    let tok = openai_step(r#"{"choices":[{"delta":{"content":"Hel"}}]}"#);
    assert!(matches!(tok, StreamStep::Token(ref t) if t == "Hel"));
    assert!(matches!(
        openai_step(r#"{"choices":[{"delta":{"content":""}}]}"#),
        StreamStep::Skip
    ));
    assert!(matches!(openai_step(r#"{"choices":[{"delta":{}}]}"#), StreamStep::Skip));
}

#[test]
fn anthropic_payloads_become_steps() {
    let tok = anthropic_step(r#"{"type":"content_block_delta","delta":{"type":"text_delta","text":"lo"}}"#);
    assert!(matches!(tok, StreamStep::Token(ref t) if t == "lo"));
    assert!(matches!(anthropic_step(r#"{"type":"message_stop"}"#), StreamStep::Done));
    let err = anthropic_step(r#"{"type":"error","error":{"type":"overloaded_error","message":"Overloaded"}}"#);
    assert!(matches!(err, StreamStep::Failed(ref m) if m == "Overloaded"));
    let err = anthropic_step(r#"{"type":"error"}"#);
    assert!(matches!(err, StreamStep::Failed(ref m) if m == "unknown error"));
    assert!(matches!(anthropic_step(r#"{"type":"ping"}"#), StreamStep::Skip));
    assert!(matches!(anthropic_step("garbage"), StreamStep::Skip));
    assert!(matches!(anthropic_step(""), StreamStep::Skip));
}

#[test]
fn collecting_an_answer() {
    let mut out = String::new();
    assert!(collect_event(&mut out, LlmEvent::Token { text: "ab".to_string() }).is_none());
    assert!(collect_event(&mut out, LlmEvent::Token { text: "c".to_string() }).is_none());
    match collect_event(&mut out, LlmEvent::Done) {
        Some(Ok(s)) => assert_eq!(s, "abc"),
        _ => panic!("expected the answer"),
    }
    match collect_event(&mut out, LlmEvent::Error { message: "boom".to_string() }) {
        Some(Err(LlmError::Network(m))) => assert_eq!(m, "boom"),
        _ => panic!("expected a network error"),
    }
    assert_eq!(out, "abc");
}

#[test]
fn anthropic_gets_only_user_and_assistant_turns() {
    let out = anthropic_messages(vec![
        msg("system", "s"),
        msg("user", "u1"),
        msg("assistant", "a1"),
        msg("tool", "t"),
        msg("user", "u2"),
    ]);
    let roles: Vec<&str> = out.iter().map(|m| m.role.as_str()).collect();
    assert_eq!(roles, vec!["user", "assistant", "user"]);
    assert_eq!(out[2].content, "u2");
}

#[test]
fn llm_error_messages() {
    assert_eq!(
        LlmError::MissingKey("openai").message(),
        "missing api key for provider: openai"
    );
    assert_eq!(
        LlmError::Upstream { provider: "anthropic", status: 529, body: "busy".to_string() }.message(),
        "upstream anthropic returned 529: busy"
    );
    assert_eq!(LlmError::Network("down".to_string()).message(), "network: down");
    assert_eq!(LlmError::Parse("bad".to_string()).message(), "parse: bad");
}

#[test]
fn provider_call_picks_provider_and_key() {
    match provider_call("anthropic", Some("ak".to_string()), Some("ok".to_string())) {
        Ok(ProviderCall::Anthropic { key }) => assert_eq!(key, "ak"),
        _ => panic!("expected anthropic"),
    }
    match provider_call("openai", Some("ak".to_string()), Some("ok".to_string())) {
        Ok(ProviderCall::OpenAi { key }) => assert_eq!(key, "ok"),
        _ => panic!("expected openai"),
    }
    match provider_call("something", None, Some("ok".to_string())) {
        Ok(ProviderCall::OpenAi { key }) => assert_eq!(key, "ok"),
        _ => panic!("expected openai"),
    }
    assert!(matches!(
        provider_call("anthropic", None, Some("ok".to_string())),
        Err(LlmError::MissingKey("anthropic"))
    ));
    assert!(matches!(
        provider_call("openai", Some("ak".to_string()), None),
        Err(LlmError::MissingKey("openai"))
    ));
}

#[test]
fn http_error_message_cuts_long_bodies() {
    assert_eq!(http_error_message("OpenAI", 401, "nope"), "OpenAI HTTP 401: nope");
    let long = "x".repeat(450);
    let m = http_error_message("Anthropic", 500, &long);
    assert_eq!(m, format!("Anthropic HTTP 500: {}…", "x".repeat(400)));
}

#[test]
fn anthropic_options_hold_the_request_settings() {
    let o = AnthropicOptions { model: "sonnet-model", max_tokens: 4096, system: "be brief" };
    let c = o.clone();
    assert_eq!(c.model, "sonnet-model");
    assert_eq!(c.max_tokens, 4096);
    assert_eq!(c.system, "be brief");
}

#[test]
fn chunking_does_not_change_payloads() {
    let stream = "data: one\r\n\ndata: two\nevent: x\ndata: three\ndata: tail";
    let mut whole = SseLines::new();
    let all = whole.feed(stream);
    for cut in 0..=stream.len() {
        if !stream.is_char_boundary(cut) {
            continue;
        }
        let mut s = SseLines::new();
        let mut got = s.feed(&stream[..cut]);
        got.extend(s.feed(&stream[cut..]));
        assert_eq!(got, all, "cut at {cut}");
        assert_eq!(s.pending, whole.pending);
    }
    assert_eq!(all, vec!["one", "two", "three"]);
}
