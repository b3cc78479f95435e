use tool_dispatch::bundle::{read_trace, trace_text};
use tool_dispatch::invocation::{ToolDispatchInvocation, ToolDispatchRequester};
use tool_dispatch::json::{characters, push_string, string_at};
use tool_dispatch::tool::ToolPayload;
use tool_dispatch::trace::{
    ExecutionStatus, SessionSource, ThreadStartedTraceMetadata, ThreadTrace, ToolResultPayload,
    TraceEvent,
};

fn call(requester: ToolDispatchRequester, payload: ToolPayload) -> TraceEvent {
    TraceEvent::ToolCallStarted(ToolDispatchInvocation {
        thread_id: "thread-1".to_string(),
        codex_turn_id: "turn-1".to_string(),
        tool_call_id: "call-1".to_string(),
        tool_name: "test_tool".to_string(),
        tool_namespace: Some("mcp".to_string()),
        requester,
        payload,
    })
}

fn ended(status: ExecutionStatus, result: ToolResultPayload) -> TraceEvent {
    TraceEvent::ToolCallEnded {
        tool_call_id: "call-1".to_string(),
        status,
        result,
    }
}

fn direct(success: Option<bool>) -> ToolResultPayload {
    ToolResultPayload::DirectResponse {
        call_id: "call-1".to_string(),
        text: "two\nlines, \"quoted\"".to_string(),
        success,
    }
}

fn every_kind_of_event() -> Vec<TraceEvent> {
    vec![
        TraceEvent::ThreadStarted(ThreadStartedTraceMetadata {
            thread_id: "thread-1".to_string(),
            agent_path: "/root".to_string(),
            task_name: None,
            nickname: Some("null".to_string()),
            agent_role: Some(String::new()),
            session_source: SessionSource::Exec,
            cwd: "C:\\work".to_string(),
            rollout_path: None,
            model: "gpt-test".to_string(),
            provider_name: "test-provider".to_string(),
            approval_policy: "never".to_string(),
            sandbox_policy: "danger-full-access".to_string(),
        }),
        TraceEvent::TurnStarted {
            codex_turn_id: "turn-1".to_string(),
        },
        TraceEvent::CodeCellStarted {
            codex_turn_id: "turn-1".to_string(),
            runtime_cell_id: "cell-1".to_string(),
            model_visible_call_id: "call-code".to_string(),
            source: "await tools.test_tool({})\n\u{0}\u{1f}\u{1f600}".to_string(),
        },
        call(
            ToolDispatchRequester::Model {
                model_visible_call_id: "call-1".to_string(),
            },
            ToolPayload::Function {
                arguments: r#"{"cell_id":"noop"}"#.to_string(),
            },
        ),
        call(
            ToolDispatchRequester::CodeCell {
                runtime_cell_id: "cell-1".to_string(),
                runtime_tool_call_id: "tool-1".to_string(),
            },
            ToolPayload::Custom {
                input: "],[".to_string(),
            },
        ),
        ended(ExecutionStatus::Completed, direct(Some(true))),
        ended(ExecutionStatus::Failed, direct(Some(false))),
        ended(ExecutionStatus::Completed, direct(None)),
        ended(
            ExecutionStatus::Running,
            ToolResultPayload::CodeModeResponse {
                value: "ok".to_string(),
            },
        ),
        ended(
            ExecutionStatus::Failed,
            ToolResultPayload::Error {
                message: "unsupported".to_string(),
            },
        ),
    ]
}

#[test]
fn a_kept_trace_is_read_back_as_it_was() {
    let trace = ThreadTrace {
        bundle_dir: "/tmp/bundle".to_string(),
        events: every_kind_of_event(),
    };
    let text = trace_text(&trace);
    assert_eq!(text.lines().count(), trace.events.len());
    let read = read_trace("/tmp/bundle".to_string(), &text).expect("lines of events");
    assert_eq!(format!("{read:?}"), format!("{trace:?}"));
}

#[test]
fn every_event_has_a_line() {
    let trace = ThreadTrace {
        bundle_dir: "/tmp/bundle".to_string(),
        events: vec![
            TraceEvent::TurnStarted {
                codex_turn_id: "turn-1".to_string(),
            },
            call(
                ToolDispatchRequester::Model {
                    model_visible_call_id: "call-1".to_string(),
                },
                ToolPayload::Function {
                    arguments: "{}".to_string(),
                },
            ),
            ended(ExecutionStatus::Completed, direct(None)),
        ],
    };
    assert_eq!(
        trace_text(&trace),
        concat_lines(&[
            r#"["turn_started","turn-1"]"#,
            r#"["tool_call_started","thread-1","turn-1","call-1","test_tool","mcp",null,"call-1","function","{}"]"#,
            r#"["tool_call_ended","call-1","completed","direct","call-1","two\nlines, \"quoted\"",null]"#,
        ])
    );
}

fn concat_lines(lines: &[&str]) -> String {
    let mut text = String::new();
    for line in lines {
        text.push_str(line);
        text.push('\n');
    }
    text
}

#[test]
fn an_empty_text_is_a_trace_without_events() {
    let read = read_trace("/tmp/bundle".to_string(), "").expect("no lines");
    assert_eq!(read.bundle_dir, "/tmp/bundle");
    assert!(read.events.is_empty());
}

#[test]
fn lines_that_tell_of_no_event_are_refused() {
    for text in [
        "x",
        "\n",
        "[]\n",
        "[null]\n",
        "[\"turn_started\",\"turn-1\"]",
        "[\"turn_started\",\"turn-1\"] \n",
        "[\"turn_started\",\"turn-1\",]\n",
        "[\"turn_started\",\"turn-1\",null]\n",
        "[\"turn_started\",null]\n",
        "[\"turn_started\"]\n",
        "[\"turn_ended\",\"turn-1\"]\n",
        "[\"turn_started\",\"turn-1\"]\nx",
        "[\"thread_started\",\"thread-1\"]\n",
        "[\"code_cell_started\",\"turn-1\",\"cell-1\",\"call-code\",null]\n",
        "[\"tool_call_started\",\"a\",\"b\",\"c\",\"d\",null,null,\"e\",\"other\",\"f\"]\n",
        "[\"tool_call_ended\",\"call-1\",\"over\",\"error\",\"why\"]\n",
        "[\"tool_call_ended\",\"call-1\",\"failed\",\"direct\",\"call-1\",\"why\",\"no\"]\n",
        "[\"tool_call_ended\",\"call-1\",\"failed\",\"error\",null]\n",
        "[\"tool_call_ended\",\"call-1\"]\n",
    ] {
        assert!(read_trace(String::new(), text).is_none(), "{text}");
    }
}

#[test]
fn strings_are_written_in_quotes_and_read_back() {
    let held = "a\"b\\c/\n\r\t\u{0}\u{8}\u{1f}\u{7f}\u{e9}\u{1f600}";
    let mut text = "x".to_string();
    push_string(&mut text, held);
    assert_eq!(
        text,
        "x\"a\\\"b\\\\c/\\n\\r\\t\\u0000\\u0008\\u001f\u{7f}\u{e9}\u{1f600}\""
    );
    let chars = characters(&text);
    let (read, at) = string_at(&chars, 2).expect("a string");
    assert_eq!(read, held);
    assert_eq!(at, chars.len());
}
