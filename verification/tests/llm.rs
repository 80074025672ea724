use dota_coach::llm::{
    assemble_completion, stream_payloads, ChoiceReading, FrameReading, LlmError, EMPTY_COMPLETION,
    NO_FRAMES, OUT_OF_TOKENS,
};

fn frame(json: &str) -> String {
    format!("data: {json}\n\n")
}

fn delta(text: Option<&str>, finish: Option<&str>) -> FrameReading {
    FrameReading {
        model: None,
        usage: None,
        choice: Some(ChoiceReading {
            finish_reason: finish.map(str::to_string),
            delta: Some(text.map(str::to_string)),
            message: None,
        }),
    }
}

fn invalid(r: Result<dota_coach::llm::LlmCompletion, LlmError>) -> String {
    match r {
        Err(LlmError::InvalidResponse(m)) => m,
        other => panic!("expected an invalid response, got {other:?}"),
    }
}

#[test]
fn every_error_has_a_note_that_does_not_leak_the_cause() {
    let error = LlmError::Unavailable("dns failure for llm.internal.example".into());
    assert!(!error.user_note().contains("dns"));
    assert!(LlmError::NotConfigured.user_note().contains("not configured"));
}

#[test]
fn a_streamed_completion_is_reassembled_with_its_usage() {
    let first = r#"{"model":"served-model","choices":[{"delta":{"role":"assistant","content":" {\"ok\":"}}]}"#;
    let second = r#"{"choices":[{"delta":{"content":"true} "},"finish_reason":"stop"}]}"#;
    let third = r#"{"choices":[],"usage":{"prompt_tokens":120,"completion_tokens":40}}"#;
    let body = [frame(first), frame(second), frame(third), "data: [DONE]\n\n".to_string()].concat();

    assert_eq!(stream_payloads(&body), vec![first, second, third]);

    let mut a = delta(Some(" {\"ok\":"), None);
    a.model = Some("served-model".into());
    let b = delta(Some("true} "), Some("stop"));
    let c = FrameReading { model: None, usage: Some((Some(120), Some(40))), choice: None };
    let completion = assemble_completion(&[a, b, c], "configured-model").unwrap();

    assert_eq!(completion.text, "{\"ok\":true}", "whitespace is trimmed");
    assert_eq!(completion.model, "served-model", "attribute what answered");
    assert_eq!(completion.input_tokens, Some(120));
    assert_eq!(completion.output_tokens, Some(40));
}

#[test]
fn a_reasoning_channel_is_ignored_and_only_content_is_kept() {
    // A frame whose delta carries only reasoning has no text content.
    let frames = [delta(None, None), delta(Some("{\"summary\":\"x\"}"), Some("stop"))];
    assert_eq!(assemble_completion(&frames, "m").unwrap().text, "{\"summary\":\"x\"}");
}

#[test]
fn a_provider_that_omits_the_model_falls_back_to_the_configured_one() {
    let completion = assemble_completion(&[delta(Some("hello"), None)], "configured-model").unwrap();
    assert_eq!(completion.model, "configured-model");
    assert_eq!(completion.input_tokens, None);
}

#[test]
fn a_provider_that_answers_a_stream_request_in_one_whole_frame_is_read() {
    let whole = FrameReading {
        model: None,
        usage: None,
        choice: Some(ChoiceReading {
            finish_reason: Some("stop".into()),
            delta: None,
            message: Some(Some("hello".into())),
        }),
    };
    assert_eq!(assemble_completion(&[whole], "m").unwrap().text, "hello");
}

#[test]
fn keep_alives_and_unreadable_frames_do_not_discard_a_good_answer() {
    let one = r#"{"choices":[{"delta":{"content":"hel"}}]}"#;
    let two = r#"{"choices":[{"delta":{"content":"lo"},"finish_reason":"stop"}]}"#;
    let body = format!(
        ": keep-alive\n\nevent: message\n{}data: not json at all\n\n{}",
        frame(one),
        frame(two)
    );
    assert_eq!(stream_payloads(&body), vec![one, "not json at all", two]);

    // The unreadable payload is left out by the caller.
    let frames = [delta(Some("hel"), None), delta(Some("lo"), Some("stop"))];
    assert_eq!(assemble_completion(&frames, "m").unwrap().text, "hello");
}

#[test]
fn a_truncated_answer_is_an_invalid_response_not_a_short_one() {
    let message = invalid(assemble_completion(&[delta(Some("{\"insights\": ["), Some("length"))], "m"));
    assert_eq!(message, OUT_OF_TOKENS);
    assert!(message.contains("output tokens"));
}

#[test]
fn a_budget_spent_entirely_on_thinking_is_reported_as_a_truncation() {
    let message = invalid(assemble_completion(&[delta(None, Some("length"))], "m"));
    assert!(message.contains("output tokens"));
}

#[test]
fn an_empty_completion_is_rejected_rather_than_treated_as_no_advice() {
    let message = invalid(assemble_completion(&[delta(Some("   "), Some("stop"))], "m"));
    assert_eq!(message, EMPTY_COMPLETION);
}

#[test]
fn a_body_with_no_frames_is_rejected() {
    assert!(stream_payloads("").is_empty());
    assert!(stream_payloads("data: [DONE]\n\n").is_empty());
    assert_eq!(invalid(assemble_completion(&[], "m")), NO_FRAMES);
}

#[test]
fn a_data_line_without_a_trailing_newline_still_counts() {
    assert_eq!(stream_payloads("data:  x "), vec!["x"]);
    assert_eq!(stream_payloads("data:\r\ndata: y\r\n"), vec!["y"]);
}
