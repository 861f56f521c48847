//! Calls of the providers.

use termai::chat::provider::{
    call_ai, codex_token, effort_request, handle_effort_command, handle_tools_command, update_config_from_state, Call, ChatState, EffortRequest, ParsedEffort, SettingsProvider,
};
use termai::chat::notice::Notice;
use termai::llm::http::{
    backoff, backoff_notice, is_success, is_transient, is_transient_status, Action, Event,
    MAX_ATTEMPTS,
};
use termai::llm::responses_adapter::ResponsesAdapter;
use termai::llm::claude_adapter;

fn refused(code: u16) -> Event {
    Event::Refused {
        code,
        body: "busy".to_string(),
    }
}

fn unsent(transient: bool) -> Event {
    Event::SendFailed {
        transient,
        error: "reset".to_string(),
    }
}

/// The requests that are sent when every attempt comes to the same event.
fn sent(event: &Event) -> u32 {
    let mut attempt = 1;
    while let Action::Retry { .. } = ResponsesAdapter::chat(attempt, event) {
        attempt += 1;
    }
    attempt
}

#[test]
fn failures_that_may_pass_are_tried_three_times() {
    assert_eq!(MAX_ATTEMPTS, 3);
    assert_eq!(sent(&unsent(true)), 3);
    assert_eq!(sent(&refused(429)), 3);
    assert_eq!(sent(&refused(503)), 3);
    assert_eq!(
        sent(&Event::BodyFailed {
            error: "cut off".to_string()
        }),
        3
    );
}

#[test]
fn failures_that_last_are_not_tried_again() {
    assert_eq!(sent(&unsent(false)), 1);
    assert_eq!(sent(&refused(401)), 1);
    assert_eq!(
        sent(&Event::Body {
            body: "{}".to_string()
        }),
        1
    );
}

#[test]
fn statuses_are_told_apart() {
    assert!(is_transient_status(429));
    assert!(is_transient_status(500));
    assert!(is_transient_status(599));
    assert!(!is_transient_status(499));
    assert!(!is_transient_status(600));
    assert!(is_success(200));
    assert!(is_success(299));
    assert!(!is_success(300));
    assert!(is_transient(false, true, false));
    assert!(!is_transient(false, false, false));
}

#[test]
fn waits_double() {
    assert_eq!(backoff(0), 600);
    assert_eq!(backoff(1), 600);
    assert_eq!(backoff(2), 1200);
    assert_eq!(backoff(5), 9600);
    assert_eq!(
        backoff_notice("OpenAI request", 2, "reset", "1"),
        "\r\x1b[2K\x1b[2m  ↻ OpenAI request failed (reset); retrying in 1s [2/3]\x1b[0m"
    );
}

#[test]
fn a_reply_is_decoded_or_the_error_is_told() {
    let body = Event::Body {
        body: "{}".to_string(),
    };
    assert!(matches!(ResponsesAdapter::chat(1, &body), Action::Decode { body } if body == "{}"));
    let empty = Event::Body {
        body: String::new(),
    };
    assert!(matches!(
        ResponsesAdapter::chat(1, &empty),
        Action::Fail { error } if error == "OpenAI API did not respond after 3 attempts"
    ));
    assert!(matches!(
        ResponsesAdapter::chat(3, &refused(503)),
        Action::Fail { error }
            if error == "OpenAI API request failed with status 503 Service Unavailable: busy"
    ));
    assert!(matches!(
        ResponsesAdapter::chat(1, &refused(429)),
        Action::Retry { label, reason }
            if label == "OpenAI request" && reason == "429 Too Many Requests"
    ));
    assert!(matches!(
        ResponsesAdapter::chat(1, &unsent(false)),
        Action::Fail { error } if error == "reset"
    ));
    assert_eq!(
        ResponsesAdapter::decode_error("x"),
        "Error decoding response body: x"
    );
    assert_eq!(
        ResponsesAdapter::decode_notices("b", "x"),
        vec!["Failed to parse OpenAI response: x", "Response body: b"]
    );
}

#[test]
fn the_vendor_is_named_in_its_errors() {
    assert!(matches!(
        claude_adapter::chat("V", 3, &refused(500)),
        Action::Fail { error } if error == "V API error (500 Internal Server Error): busy"
    ));
    assert!(matches!(
        claude_adapter::chat("V", 2, &Event::BodyFailed { error: "cut".to_string() }),
        Action::Retry { label, reason } if label == "V response" && reason == "cut"
    ));
    assert!(matches!(
        claude_adapter::chat("V", 3, &Event::BodyFailed { error: "cut".to_string() }),
        Action::Fail { error } if error == "cut"
    ));
    let empty = Event::Body {
        body: String::new(),
    };
    assert!(matches!(
        claude_adapter::chat("V", 1, &empty),
        Action::Decode { body } if body.is_empty()
    ));
    assert_eq!(claude_adapter::refusal_notice("V", "b"), "V API Error: b");
    assert_eq!(
        claude_adapter::decode_error("V", "x"),
        "Could not decode the V response: x"
    );
}

#[test]
fn a_large_input_is_mentioned() {
    let half = "x".repeat(5000);
    assert_eq!(
        claude_adapter::large_input_notice("V", &vec![half.clone(), half.clone()]),
        None
    );
    assert_eq!(
        claude_adapter::large_input_notice("V", &vec![half.clone(), half, "é".to_string()])
            .as_deref(),
        Some("V Request: Large input detected (10002 characters)")
    );
}

fn state(provider: &str) -> ChatState {
    ChatState {
        provider: provider.to_string(),
        model: "m".to_string(),
        tools_enabled: false,
        reasoning_effort: None,
    }
}

#[test]
fn a_provider_is_called_by_its_name() {
    assert!(matches!(
        call_ai(&state("first"), "first", None),
        Ok(Call::Claude { model }) if model == "m"
    ));
    assert!(matches!(
        call_ai(&state("openai"), "first", None),
        Ok(Call::Openai { model }) if model == "m"
    ));
    let mut tools = state("openai");
    tools.tools_enabled = true;
    assert!(matches!(
        call_ai(&tools, "first", None),
        Ok(Call::OpenaiWithTools)
    ));
    for name in ["codex", "openai-codex", "openai_codex"] {
        assert!(matches!(
            call_ai(&state(name), "first", Some("low".to_string())),
            Ok(Call::Codex { effort, .. }) if effort.as_deref() == Some("low")
        ));
        assert_eq!(
            update_config_from_state(&state(name), "first").unwrap().0,
            SettingsProvider::Codex
        );
    }
    let mut high = state("codex");
    high.reasoning_effort = Some("high".to_string());
    assert!(matches!(
        call_ai(&high, "first", Some("low".to_string())),
        Ok(Call::Codex { effort, .. }) if effort.as_deref() == Some("high")
    ));
    assert_eq!(
        call_ai(&state("other"), "first", None).unwrap_err(),
        "Unsupported provider: other"
    );
    assert_eq!(
        update_config_from_state(&state("other"), "first").unwrap_err(),
        "Unknown provider: other"
    );
}

fn words(notices: &Vec<Notice>) -> Vec<String> {
    notices.iter().map(|notice| format!("{notice:?}")).collect()
}

#[test]
fn an_effort_is_shown_set_and_reset() {
    assert!(matches!(effort_request(&None), EffortRequest::Show));
    for value in ["DEFAULT", "clear", "Unset"] {
        assert!(matches!(
            effort_request(&Some(value.to_string())),
            EffortRequest::Reset
        ));
    }
    let request = effort_request(&Some("HIGH".to_string()));
    assert!(matches!(&request, EffortRequest::Parse(v) if v == "high"));

    let mut chat = state("codex");
    let shown = handle_effort_command(&mut chat, &EffortRequest::Show, None, &None);
    assert_eq!(
        words(&shown),
        vec!["Text(\"🧠 Reasoning effort: default (provider default)\\n   Valid values: none, low, medium, high, xhigh, max, ultra (or 'default' to clear)\")"]
    );
    let parsed = Some(ParsedEffort {
        effort: "high".to_string(),
        warning: Some("careful".to_string()),
    });
    let set = handle_effort_command(&mut chat, &request, None, &parsed);
    assert_eq!(
        words(&set),
        vec![
            "Warning(\"careful\")",
            "Success(\"Reasoning effort set to high for this session\")"
        ]
    );
    assert_eq!(chat.reasoning_effort.as_deref(), Some("high"));
    let wrong = handle_effort_command(&mut chat, &request, None, &None);
    assert_eq!(
        words(&wrong),
        vec!["Warning(\"Invalid reasoning effort 'high'. Valid values: none, low, medium, high, xhigh, max, ultra\")"]
    );
    assert_eq!(chat.reasoning_effort.as_deref(), Some("high"));
    handle_effort_command(&mut chat, &EffortRequest::Reset, None, &None);
    assert_eq!(chat.reasoning_effort, None);
}

#[test]
fn tools_are_set_and_toggled() {
    let mut chat = state("openai");
    let on = handle_tools_command(&mut chat, None);
    assert!(chat.tools_enabled);
    assert_eq!(
        format!("{on:?}"),
        "Success(\"Tools are now enabled. The AI can execute bash commands, read/write files, and list directories.\")"
    );
    let mut other = state("codex");
    let off = handle_tools_command(&mut other, Some(false));
    assert!(!other.tools_enabled);
    assert!(format!("{off:?}").contains("Current provider: codex"));
}

#[test]
fn codex_is_not_called_without_a_token() {
    assert_eq!(codex_token(Some("secret".to_string())), Ok("secret".to_string()));
    assert_eq!(
        codex_token(None),
        Err("Not authenticated with Codex. Run 'termai auth login codex' to authenticate.".to_string())
    );
}
