use tauricode::runtime::events::Event;
use tauricode::runtime::opencode_log_normalizer::normalize_opencode_log_line;
use tauricode::runtime::types::RuntimeHandle;

fn h() -> RuntimeHandle {
    RuntimeHandle::new("test-handle")
}

#[test]
fn tool_started_from_real_evaluated_permission_line() {
    let line = r#"timestamp=2026-08-25T07:42:54.759Z level=INFO run=45fb18dc message=evaluated permission=bash pattern="git push origin dev" action.permission=* action.action=allow action.pattern=*"#;

    let event = normalize_opencode_log_line(line, &h()).expect("should normalize");
    assert_eq!(
        event,
        Event::ToolStarted { handle: h(), task_id: None, tool_name: "bash".to_string() }
    );
}

#[test]
fn error_from_real_stream_error_line() {
    let line = r#"timestamp=2026-08-25T07:39:20.396Z level=ERROR run=d849a094 message="stream error" providerID=opencode modelID=x-preview-f-free session.id=ses_fd6e68465ffeHCi02vtj30aXOq small=false agent=build mode=primary error.error="AI_APICallError: Error from provider (Console): Upstream request failed: Endpoint is unavailable.""#;

    let event = normalize_opencode_log_line(line, &h()).expect("should normalize");
    match event {
        Event::Error { message, .. } => {
            assert!(message.contains("AI_APICallError"));
            assert!(message.contains("Endpoint is unavailable"));
        }
        other => panic!("expected Error, got {other:?}"),
    }
}

#[test]
fn llm_runtime_selected_is_dropped_not_invented() {
    let line = r#"timestamp=2026-08-25T07:41:49.505Z level=INFO run=45fb18dc message="llm runtime selected" llm.runtime=ai-sdk llm.provider=openrouter llm.model=stealth/ox-alpha"#;
    assert_eq!(normalize_opencode_log_line(line, &h()), None);
}

#[test]
fn resolved_path_is_dropped_not_invented() {
    let line = r#"timestamp=2026-08-24T23:32:08.349Z level=INFO run=82f0cfdc message="resolved path" arg=/home/agents/GitHub/my-lisp resolved=/home/agents/GitHub/my-lisp"#;
    assert_eq!(normalize_opencode_log_line(line, &h()), None);
}

#[test]
fn loop_bookkeeping_is_dropped_not_invented() {
    let line = "timestamp=2026-08-24T23:35:09.245Z level=INFO run=82f0cfdc message=loop session.id=ses_fd0f43ae9ffe4QCg5mORK2MXKo step=1";
    assert_eq!(normalize_opencode_log_line(line, &h()), None);
}

#[test]
fn cancel_is_dropped_not_invented_as_runtime_stopped() {
    let line = "timestamp=2026-08-25T07:41:57.589Z level=INFO run=d849a094 message=cancel session.id=ses_fd6e68465ffeHCi02vtj30aXOq";
    assert_eq!(normalize_opencode_log_line(line, &h()), None);
}

#[test]
fn garbage_line_returns_none_not_panic() {
    assert_eq!(normalize_opencode_log_line("not a log line at all", &h()), None);
    assert_eq!(normalize_opencode_log_line("", &h()), None);
}

#[test]
fn stream_error_without_detail_gets_the_fixed_message() {
    let event = normalize_opencode_log_line(r#"level=ERROR message="stream error" run=1"#, &h()).unwrap();
    assert_eq!(
        event,
        Event::Error {
            handle: h(),
            message: "stream error (no error.error field present)".to_string(),
            retryable: None,
        }
    );
}

#[test]
fn evaluated_without_permission_is_dropped() {
    assert_eq!(normalize_opencode_log_line("message=evaluated pattern=x", &h()), None);
}

#[test]
fn a_later_field_overrides_an_earlier_one() {
    let event =
        normalize_opencode_log_line("permission=ls message=evaluated permission=grep", &h()).unwrap();
    assert_eq!(
        event,
        Event::ToolStarted { handle: h(), task_id: None, tool_name: "grep".to_string() }
    );
}

#[test]
fn trailing_whitespace_of_the_last_value_is_dropped() {
    let event = normalize_opencode_log_line("message=evaluated permission=bash   ", &h()).unwrap();
    assert_eq!(
        event,
        Event::ToolStarted { handle: h(), task_id: None, tool_name: "bash".to_string() }
    );
}

#[test]
fn an_unterminated_quote_stops_reading() {
    assert_eq!(normalize_opencode_log_line(r#"permission=bash message="evaluated"#, &h()), None);
    let event =
        normalize_opencode_log_line(r#"message=evaluated permission=bash note="open"#, &h()).unwrap();
    assert_eq!(
        event,
        Event::ToolStarted { handle: h(), task_id: None, tool_name: "bash".to_string() }
    );
}

#[test]
fn an_empty_key_stops_reading() {
    assert_eq!(normalize_opencode_log_line("=x message=evaluated permission=bash", &h()), None);
}
