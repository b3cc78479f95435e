use std::sync::{Arc, Mutex};

use tokio_util::sync::CancellationToken;
use tool_dispatch::arguments::{read_wait_arguments, WaitArguments};
use tool_dispatch::bundle::{read_trace, trace_text};
use tool_dispatch::cell::{CellId, ExecuteRequest, RuntimeResponse, WaitOutcome, WaitRequest};
use tool_dispatch::code_mode::{CodeModeService, Execution};
use tool_dispatch::context::{Session, SessionServices, TurnContext};
use tool_dispatch::handler::{
    wait_output, wait_result, CodeModeWaitHandler, TestHandler, ToolHandler, WAIT_TOOL_NAME,
};
use tool_dispatch::invocation::{
    test_invocation, test_invocation_with_payload, tool_dispatch_invocation, ToolCallSource,
    ToolDispatchRequester,
};
use tool_dispatch::registry::ToolRegistry;
use tool_dispatch::replay::{
    replay_bundle, RawPayload, ReplayError, ReplayedRollout, ReplayedToolCall, ToolCallRequester,
};
use tool_dispatch::runtime::{CodeModeSession, ExecuteTask};
use tool_dispatch::session::{
    test_execute_request, TestCodeModeSession, TestCodeModeSessionProvider, TestTerminateOutcome,
};
use tool_dispatch::tool::{FunctionCallError, ToolName, ToolNamespace, ToolPayload, ToolSpec};
use tool_dispatch::trace::{
    attach_test_trace, single_bundle_dir, ExecutionStatus, ThreadTrace, ToolResultPayload,
    TraceEvent,
};

/// A handle on a session that the test looks at too.
struct Shared(Arc<Mutex<TestCodeModeSession>>);

impl From<Arc<Mutex<TestCodeModeSession>>> for Shared {
    fn from(session: Arc<Mutex<TestCodeModeSession>>) -> Self {
        Shared(session)
    }
}

impl CodeModeSession for Shared {
    fn execute(&mut self, request: ExecuteRequest) -> ExecuteTask {
        self.0.lock().expect("not poisoned").execute(request)
    }

    fn wait(&mut self, request: WaitRequest) -> Result<WaitOutcome, String> {
        self.0.lock().expect("not poisoned").wait(request)
    }

    fn terminate(&mut self, cell_id: CellId) -> Result<WaitOutcome, String> {
        self.0.lock().expect("not poisoned").terminate(cell_id)
    }

    fn shutdown(&self) -> Result<(), String> {
        self.0.lock().expect("not poisoned").shutdown()
    }
}

fn service_over(session: &Arc<Mutex<TestCodeModeSession>>) -> CodeModeService<Shared> {
    let provider = TestCodeModeSessionProvider {
        session: Arc::clone(session),
    };
    CodeModeService::from_provider(&provider).expect("a session")
}

fn make_session_and_context() -> (Arc<Session>, SessionServices<Shared>, TurnContext) {
    let session = Session {
        thread_id: "thread-1".to_string(),
    };
    let services = SessionServices {
        rollout_thread_trace: None,
        code_mode_service: service_over(&Arc::new(Mutex::new(TestCodeModeSession::new(
            TestTerminateOutcome::Terminated,
            CellId::new("a".to_string()),
        )))),
    };
    let turn = TurnContext {
        sub_id: "turn-1".to_string(),
    };
    (Arc::new(session), services, turn)
}

fn terminate_count(session: &Shared) -> usize {
    session.0.lock().expect("not poisoned").terminate_count
}

fn attach<S>(session: &Session, services: &mut SessionServices<S>, turn: &TurnContext) {
    let opened: Result<String, String> = Ok("/tmp/bundle".to_string());
    assert_eq!(attach_test_trace(session, services, turn, opened), Ok(()));
}

fn trace<S>(services: &SessionServices<S>) -> &ThreadTrace {
    services
        .rollout_thread_trace
        .as_ref()
        .expect("a trace is kept")
}

/// Tells what the trace says, from the text that is kept of it.
fn replay<S>(services: &SessionServices<S>) -> ReplayedRollout {
    let kept = trace(services);
    let read = read_trace(kept.bundle_dir.clone(), &trace_text(kept)).expect("lines of events");
    replay_bundle(&read).expect("the trace makes sense")
}

fn tool_call<'a>(rollout: &'a ReplayedRollout, id: &str) -> &'a ReplayedToolCall {
    rollout
        .tool_calls
        .iter()
        .find(|call| call.tool_call_id == id)
        .expect("the call is traced")
}

fn test_registry() -> ToolRegistry {
    ToolRegistry::with_handler_for_test(ToolHandler::Test(TestHandler {
        tool_name: ToolName::plain("test_tool"),
    }))
}

fn wait_registry() -> ToolRegistry {
    ToolRegistry::with_handler_for_test(ToolHandler::CodeModeWait(CodeModeWaitHandler {}))
}

#[test]
fn dispatch_lifecycle_trace_records_direct_and_code_mode_requesters() {
    let (session, mut services, turn) = make_session_and_context();
    attach(&session, &mut services, &turn);
    services
        .rollout_thread_trace
        .as_mut()
        .expect("a trace is kept")
        .start_code_cell_trace(
            turn.sub_id.as_str(),
            "cell-1",
            "call-code",
            "await tools.test_tool({})",
        );

    let registry = test_registry();
    let turn = Arc::new(turn);

    let direct = test_invocation(
        Arc::clone(&session),
        Arc::clone(&turn),
        "direct-call",
        "test_tool",
        ToolCallSource::Direct,
        "{}",
    );
    let result = registry.dispatch_any_with_terminal_outcome(&mut services, &direct);
    assert!(result.is_ok());
    let code_mode = test_invocation(
        Arc::clone(&session),
        turn,
        "code-mode-call",
        "test_tool",
        ToolCallSource::CodeMode {
            cell_id: "cell-1".to_string(),
            runtime_tool_call_id: "tool-1".to_string(),
        },
        "{}",
    );
    let result = registry.dispatch_any_with_terminal_outcome(&mut services, &code_mode);
    assert!(result.is_ok());

    let replayed = replay(&services);
    let direct = tool_call(&replayed, "direct-call");
    assert_eq!(direct.model_visible_call_id, Some("direct-call".to_string()));
    assert!(matches!(direct.requester, ToolCallRequester::Model));
    assert!(
        direct.raw_invocation_payload_id.is_some(),
        "dispatch tracing should keep the tool invocation payload",
    );
    assert!(
        direct.raw_result_payload_id.is_some(),
        "direct calls should keep the model-facing result payload",
    );
    let code_mode = tool_call(&replayed, "code-mode-call");
    assert_eq!(code_mode.model_visible_call_id, None);
    assert_eq!(
        code_mode.code_mode_runtime_tool_id,
        Some("tool-1".to_string())
    );
    match &code_mode.requester {
        ToolCallRequester::CodeCell { code_cell_id } => {
            assert_eq!(code_cell_id, "code_cell:call-code");
        }
        ToolCallRequester::Model => panic!("the cell made the call"),
    }
    assert!(
        code_mode.raw_result_payload_id.is_some(),
        "code-mode calls should keep the result returned to JavaScript",
    );

    assert_eq!(direct.status, ExecutionStatus::Completed);
    match &replayed.payloads[direct.raw_invocation_payload_id.expect("kept")] {
        RawPayload::ToolInvocation(ToolPayload::Function { arguments }) => {
            assert_eq!(arguments, "{}");
        }
        other => panic!("{other:?}"),
    }
    match &replayed.payloads[direct.raw_result_payload_id.expect("kept")] {
        RawPayload::ToolResult(ToolResultPayload::DirectResponse {
            call_id,
            text,
            success,
        }) => {
            assert_eq!(call_id, "direct-call");
            assert_eq!(text, "ok");
            assert_eq!(*success, Some(true));
        }
        other => panic!("{other:?}"),
    }
    match &replayed.payloads[code_mode.raw_result_payload_id.expect("kept")] {
        RawPayload::ToolResult(ToolResultPayload::CodeModeResponse { value }) => {
            assert_eq!(value, "ok");
        }
        other => panic!("{other:?}"),
    }
}

#[test]
fn dispatch_lifecycle_trace_records_unsupported_tool_failures() {
    let (session, mut services, turn) = make_session_and_context();
    attach(&session, &mut services, &turn);

    let registry = ToolRegistry::empty_for_test();
    let invocation = test_invocation(
        Arc::clone(&session),
        Arc::new(turn),
        "unsupported-call",
        "missing_tool",
        ToolCallSource::Direct,
        "{}",
    );
    let result = registry.dispatch_any_with_terminal_outcome(&mut services, &invocation);

    assert!(matches!(result, Err(FunctionCallError::RespondToModel(_))));
    let replayed = replay(&services);
    let tool_call = tool_call(&replayed, "unsupported-call");
    assert_eq!(tool_call.status, ExecutionStatus::Failed);
    assert!(tool_call.raw_result_payload_id.is_some());
    match &replayed.payloads[tool_call.raw_result_payload_id.expect("kept")] {
        RawPayload::ToolResult(ToolResultPayload::Error { message }) => {
            assert_eq!(message, "unsupported call: missing_tool");
        }
        other => panic!("{other:?}"),
    }
}

#[test]
fn dispatch_lifecycle_trace_records_incompatible_payload_failures() {
    let (session, mut services, turn) = make_session_and_context();
    attach(&session, &mut services, &turn);

    let registry = test_registry();
    let invocation = test_invocation_with_payload(
        Arc::clone(&session),
        Arc::new(turn),
        "incompatible-call",
        ToolName::plain("test_tool"),
        ToolCallSource::Direct,
        ToolPayload::Custom {
            input: "{}".to_string(),
        },
    );
    let result = registry.dispatch_any_with_terminal_outcome(&mut services, &invocation);

    assert!(matches!(result, Err(FunctionCallError::Fatal(_))));
    let replayed = replay(&services);
    let tool_call = tool_call(&replayed, "incompatible-call");
    assert_eq!(tool_call.status, ExecutionStatus::Failed);
    assert!(tool_call.raw_result_payload_id.is_some());
    match result {
        Err(FunctionCallError::Fatal(message)) => {
            assert_eq!(message, "tool test_tool invoked with incompatible payload");
        }
        other => panic!("{other:?}"),
    }
}

#[test]
fn missing_code_mode_wait_traces_only_the_wait_tool_call() {
    let (session, mut services, turn) = make_session_and_context();
    let missing_cell_id = CellId::new("noop".to_string());
    let code_mode_session = Arc::new(Mutex::new(TestCodeModeSession::new(
        TestTerminateOutcome::Missing,
        missing_cell_id,
    )));
    services.code_mode_service = service_over(&code_mode_session);
    let execution = services
        .code_mode_service
        .execute(test_execute_request(), &CancellationToken::new());
    assert!(matches!(execution, Execution::Done(Ok(_))));
    attach(&session, &mut services, &turn);

    let registry = wait_registry();

    let mut invocation = test_invocation(
        session,
        Arc::new(turn),
        "wait-call",
        WAIT_TOOL_NAME,
        ToolCallSource::Direct,
        r#"{"cell_id":"noop","terminate":true}"#,
    );
    invocation.tool_name = invocation.tool_name.with_default_namespace();
    assert!(tool_dispatch_invocation(&invocation)
        .expect("wait calls should produce a trace invocation")
        .tool_namespace
        .is_none());

    let result = registry.dispatch_any_with_terminal_outcome(&mut services, &invocation);
    assert!(result.is_ok());

    assert!(services
        .code_mode_service
        .interrupt_active_cells()
        .is_some());
    assert_eq!(
        code_mode_session
            .lock()
            .expect("not poisoned")
            .terminate_count,
        1,
        "a missing cell must not be terminated again after its dispatch gate closes"
    );

    let replayed = replay(&services);
    assert_eq!(replayed.code_cells.len(), 0);
    assert!(tool_call(&replayed, "wait-call")
        .raw_result_payload_id
        .is_some());
    assert_eq!(
        tool_call(&replayed, "wait-call").status,
        ExecutionStatus::Failed
    );
    let output = result.expect("the wait tool answered");
    assert_eq!(output.text, "exec cell noop not found");
    assert_eq!(output.success, Some(false));
}

#[test]
fn the_test_tool_offers_itself_and_says_ok() {
    let handler = TestHandler {
        tool_name: ToolName::plain("test_tool"),
    };
    assert_eq!(handler.tool_name().name, "test_tool");
    let ToolSpec::Function(tool) = handler.spec();
    assert_eq!(tool.name, "test_tool");
    assert_eq!(tool.description, "Test tool.");
    assert!(!tool.strict);
    assert_eq!(tool.defer_loading, None);
    assert!(tool.parameters.keywords.is_empty());
    assert!(tool.output_schema.is_none());

    let (session, _services, turn) = make_session_and_context();
    let invocation = test_invocation(
        Arc::clone(&session),
        Arc::new(turn),
        "call",
        "other_tool",
        ToolCallSource::Direct,
        "",
    );
    let output = handler.handle(&invocation).expect("it never fails");
    assert_eq!(output.text, "ok");
    assert_eq!(output.success, Some(true));
}

#[test]
fn an_invocation_carries_what_it_is_given() {
    let (session, _services, turn) = make_session_and_context();
    let turn = Arc::new(turn);
    let invocation = test_invocation(
        Arc::clone(&session),
        Arc::clone(&turn),
        "call",
        "tool",
        ToolCallSource::CodeMode {
            cell_id: "cell".to_string(),
            runtime_tool_call_id: "runtime".to_string(),
        },
        "[]",
    );
    assert!(Arc::ptr_eq(&invocation.session, &session));
    assert!(Arc::ptr_eq(&invocation.turn, &turn));
    assert!(Arc::ptr_eq(&invocation.step_context.turn, &turn));
    assert!(!invocation.cancellation_token.is_cancelled());
    let tracker = invocation.tracker.try_lock().expect("nobody holds it");
    assert!(tracker.changed_files.is_empty());
    assert_eq!(invocation.call_id, "call");
    assert_eq!(invocation.tool_name.name, "tool");
    assert!(matches!(
        invocation.tool_name.namespace,
        ToolNamespace::Unspecified
    ));

    let traced = tool_dispatch_invocation(&invocation).expect("every call is traced");
    assert_eq!(traced.thread_id, "thread-1");
    assert_eq!(traced.codex_turn_id, "turn-1");
    assert_eq!(traced.tool_call_id, "call");
    assert_eq!(traced.tool_name, "tool");
    match traced.requester {
        ToolDispatchRequester::CodeCell {
            runtime_cell_id,
            runtime_tool_call_id,
        } => {
            assert_eq!(runtime_cell_id, "cell");
            assert_eq!(runtime_tool_call_id, "runtime");
        }
        other => panic!("{other:?}"),
    }
    match traced.payload {
        ToolPayload::Function { arguments } => assert_eq!(arguments, "[]"),
        other => panic!("{other:?}"),
    }
}

#[test]
fn a_named_namespace_is_traced_and_told_apart() {
    let named = ToolName {
        name: "tool".to_string(),
        namespace: ToolNamespace::Named("mcp".to_string()),
    };
    assert!(!named.same_tool(&ToolName::plain("tool")));
    assert!(named.same_tool(&named.clone().with_default_namespace()));
    assert!(ToolName::plain("tool").same_tool(&ToolName::plain("tool").with_default_namespace()));
    assert!(!ToolName::plain("tool").same_tool(&ToolName::plain("tools")));

    let (session, _services, turn) = make_session_and_context();
    let invocation = test_invocation_with_payload(
        Arc::clone(&session),
        Arc::new(turn),
        "call",
        named,
        ToolCallSource::Direct,
        ToolPayload::Function {
            arguments: String::new(),
        },
    );
    let traced = tool_dispatch_invocation(&invocation).expect("every call is traced");
    assert_eq!(traced.tool_namespace.as_deref(), Some("mcp"));
}

#[test]
fn attaching_a_trace_starts_the_thread_and_the_turn() {
    let (session, mut services, turn) = make_session_and_context();
    attach(&session, &mut services, &turn);
    let trace = trace(&services);
    assert_eq!(trace.bundle_dir, "/tmp/bundle");
    assert_eq!(trace.events.len(), 2);
    match &trace.events[0] {
        TraceEvent::ThreadStarted(metadata) => {
            assert_eq!(metadata.thread_id, "thread-1");
            assert_eq!(metadata.agent_path, "/root");
            assert_eq!(metadata.task_name, None);
            assert_eq!(metadata.nickname, None);
            assert_eq!(metadata.agent_role, None);
            assert_eq!(metadata.cwd, "/workspace");
            assert_eq!(metadata.rollout_path, None);
            assert_eq!(metadata.model, "gpt-test");
            assert_eq!(metadata.provider_name, "test-provider");
            assert_eq!(metadata.approval_policy, "never");
            assert_eq!(metadata.sandbox_policy, "danger-full-access");
        }
        other => panic!("{other:?}"),
    }
    match &trace.events[1] {
        TraceEvent::TurnStarted { codex_turn_id } => assert_eq!(codex_turn_id, "turn-1"),
        other => panic!("{other:?}"),
    }
}

#[test]
fn a_trace_that_cannot_be_opened_is_not_attached() {
    let (session, mut services, turn) = make_session_and_context();
    let refused = attach_test_trace(&session, &mut services, &turn, Err("read-only"));
    assert_eq!(refused, Err("read-only"));
    assert!(services.rollout_thread_trace.is_none());
}

#[test]
fn dispatch_works_without_a_trace() {
    let (session, mut services, turn) = make_session_and_context();
    let invocation = test_invocation(
        Arc::clone(&session),
        Arc::new(turn),
        "call",
        "test_tool",
        ToolCallSource::Direct,
        "{}",
    );
    let result = test_registry().dispatch_any_with_terminal_outcome(&mut services, &invocation);
    assert!(result.is_ok());
    assert!(services.rollout_thread_trace.is_none());
}

#[test]
fn an_unsupported_custom_call_is_said_to_be_custom() {
    let (session, mut services, turn) = make_session_and_context();
    let invocation = test_invocation_with_payload(
        Arc::clone(&session),
        Arc::new(turn),
        "call",
        ToolName::plain("patch"),
        ToolCallSource::Direct,
        ToolPayload::Custom {
            input: String::new(),
        },
    );
    match test_registry().dispatch_any_with_terminal_outcome(&mut services, &invocation) {
        Err(FunctionCallError::RespondToModel(message)) => {
            assert_eq!(message, "unsupported custom tool call: patch");
        }
        other => panic!("{other:?}"),
    }
}

#[test]
fn the_first_of_two_tools_of_one_name_is_meant() {
    let registry = ToolRegistry {
        handlers: vec![
            ToolHandler::CodeModeWait(CodeModeWaitHandler {}),
            ToolHandler::Test(TestHandler {
                tool_name: ToolName::plain(WAIT_TOOL_NAME),
            }),
            ToolHandler::Test(TestHandler {
                tool_name: ToolName::plain("other"),
            }),
        ],
    };
    let wait = registry.handler(&ToolName::plain("wait"));
    assert!(matches!(wait, Some(ToolHandler::CodeModeWait(_))));
    let other = registry.handler(&ToolName::plain("other"));
    assert!(matches!(other, Some(ToolHandler::Test(_))));
    assert!(registry.handler(&ToolName::plain("none")).is_none());
}

#[test]
fn a_wait_without_terminate_asks_the_session_too() {
    let (_session, services, _turn) = make_session_and_context();
    let mut service = services.code_mode_service;
    let execution = service.execute_unless(test_execute_request(), false);
    assert!(matches!(execution, Execution::Done(Ok(_))));
    let output = CodeModeWaitHandler::handle(
        &mut service,
        WaitArguments {
            cell_id: CellId::new("a".to_string()),
            terminate: false,
        },
    )
    .expect("the session answers");
    assert_eq!(output.text, "");
    assert_eq!(output.success, Some(true));
    assert_eq!(terminate_count(service.session()), 1);
    assert!(service.active_cells().is_empty());
}

#[test]
fn arguments_that_cannot_be_read_are_answered_to_the_model() {
    let (session, mut services, turn) = make_session_and_context();
    let execution = services
        .code_mode_service
        .execute_unless(test_execute_request(), false);
    assert!(matches!(execution, Execution::Done(Ok(_))));
    let invocation = test_invocation(
        session,
        Arc::new(turn),
        "wait-call",
        WAIT_TOOL_NAME,
        ToolCallSource::Direct,
        r#"{"terminate":true}"#,
    );
    match wait_registry().dispatch_any_with_terminal_outcome(&mut services, &invocation) {
        Err(FunctionCallError::RespondToModel(message)) => {
            assert_eq!(message, "failed to parse function arguments");
        }
        other => panic!("{other:?}"),
    }
    match CodeModeWaitHandler::handle_read(
        &mut services.code_mode_service,
        Err("not JSON".to_string()),
    ) {
        Err(FunctionCallError::RespondToModel(message)) => assert_eq!(message, "not JSON"),
        other => panic!("{other:?}"),
    }
    assert_eq!(terminate_count(services.code_mode_service.session()), 0);
    assert_eq!(services.code_mode_service.active_cells().len(), 1);
}

fn read(text: &str) -> Option<(String, bool)> {
    read_wait_arguments(text)
        .ok()
        .map(|arguments| (arguments.cell_id.value, arguments.terminate))
}

#[test]
fn wait_arguments_are_read_from_json() {
    let noop = |terminate| Some(("noop".to_string(), terminate));
    assert_eq!(read(r#"{"cell_id":"noop","terminate":true}"#), noop(true));
    assert_eq!(read(r#"{"cell_id":"noop","terminate":false}"#), noop(false));
    assert_eq!(read(r#"{"cell_id":"noop"}"#), noop(false));
    assert_eq!(
        read(" {\n\t\"terminate\" : true , \"cell_id\" : \"noop\" } \r\n"),
        noop(true)
    );
    assert_eq!(
        read(r#"{"yield_time_ms":-1.5e+3,"note":"x","more":null,"on":true,"cell_id":"noop"}"#),
        noop(false)
    );
    assert_eq!(
        read("{\"cell_id\":\"a\\\"b\\\\c\\/d\\n\\t\\r\\b\\f\u{e9}\"}"),
        Some(("a\"b\\c/d\n\t\r\u{8}\u{c}\u{e9}".to_string(), false))
    );
    assert_eq!(
        read("{\"cell_id\":\"\\u006eo\\u006Fp\"}"),
        noop(false)
    );
    assert_eq!(
        read("{\"cell_id\":\"\\ud83d\\ude00\\u20ac\"}"),
        Some(("\u{1f600}\u{20ac}".to_string(), false))
    );
    for number in ["0", "-0", "10", "0.5", "-12.25", "1e9", "1E-9", "3.0e+1"] {
        assert_eq!(
            read(&format!("{{\"yield_time_ms\":{number},\"cell_id\":\"noop\"}}")),
            noop(false),
            "{number}"
        );
    }
}

#[test]
fn other_texts_are_no_wait_arguments() {
    for text in [
        "",
        "noop",
        "{}",
        "{",
        r#"{"cell_id":"noop""#,
        r#"{"cell_id":"noop"} x"#,
        r#"{"cell_id":"noop",}"#,
        r#"{"cell_id":"noop" "terminate":true}"#,
        r#"{"cell_id" "noop"}"#,
        r#"{cell_id:"noop"}"#,
        r#"{"cell_id":noop}"#,
        r#"{"cell_id":true}"#,
        r#"{"cell_id":"noop","terminate":"true"}"#,
        r#"{"cell_id":"noop","cell_id":"noop"}"#,
        r#"{"cell_id":"noop","terminate":true,"terminate":true}"#,
        r#"{"cell_id":"noop","more":[1]}"#,
        "{\"cell_id\":\"no\nop\"}",
        r#"{"cell_id":"no\xop"}"#,
        "{\"cell_id\":\"noop\\",
        "{\"cell_id\":\"\\u00g0\"}",
        "{\"cell_id\":\"\\u006\"}",
        "{\"cell_id\":\"\\ud83d\"}",
        "{\"cell_id\":\"\\ud83d\\u0041\"}",
        "{\"cell_id\":\"\\ude00\"}",
        r#"{"cell_id":"noop","more":01}"#,
        r#"{"cell_id":"noop","more":1.}"#,
        r#"{"cell_id":"noop","more":.5}"#,
        r#"{"cell_id":"noop","more":-}"#,
        r#"{"cell_id":"noop","more":+1}"#,
        r#"{"cell_id":"noop","more":1e}"#,
        r#"{"cell_id":"noop","more":1x}"#,
        r#"{"cell_id":"noop","more":nil}"#,
    ] {
        assert_eq!(read(text), None, "{text}");
    }
}

#[test]
fn a_failing_session_is_answered_to_the_model() {
    match wait_result(&Err("host is gone".to_string())) {
        Err(FunctionCallError::RespondToModel(message)) => assert_eq!(message, "host is gone"),
        other => panic!("{other:?}"),
    }
}

#[test]
fn all_that_a_cell_said_is_handed_on() {
    let output = wait_output(&WaitOutcome::LiveCell(RuntimeResponse::Yielded {
        code_mode_host_duration: Some(5),
        cell_id: CellId::new("a".to_string()),
        content_items: vec!["one ".to_string(), "two".to_string()],
    }));
    assert_eq!(output.text, "one two");
    assert_eq!(output.success, Some(true));
}

#[test]
fn the_only_entry_is_the_bundle() {
    let entries: Vec<Result<&str, &str>> = vec![Ok("bundle")];
    assert_eq!(single_bundle_dir(entries), Ok("bundle"));
    let unreadable: Vec<Result<&str, &str>> =
        vec![Ok("a"), Err("first"), Ok("b"), Err("second")];
    assert_eq!(single_bundle_dir(unreadable), Err("first"));
}

fn replay_error(events: Vec<TraceEvent>) -> Option<ReplayError> {
    let trace = ThreadTrace {
        bundle_dir: String::new(),
        events,
    };
    replay_bundle(&trace).err()
}

fn started(source: ToolCallSource) -> TraceEvent {
    let (session, _services, turn) = make_session_and_context();
    let invocation =
        test_invocation(session, Arc::new(turn), "call", "tool", source, "{}");
    TraceEvent::ToolCallStarted(tool_dispatch_invocation(&invocation).expect("traced"))
}

fn cell_started() -> TraceEvent {
    TraceEvent::CodeCellStarted {
        codex_turn_id: "turn-1".to_string(),
        runtime_cell_id: "cell-1".to_string(),
        model_visible_call_id: "call-code".to_string(),
        source: String::new(),
    }
}

#[test]
fn traces_that_make_no_sense_are_refused() {
    assert_eq!(replay_error(Vec::new()), None);
    assert_eq!(
        replay_error(vec![cell_started(), cell_started()]),
        Some(ReplayError::DuplicateCodeCell)
    );
    assert_eq!(
        replay_error(vec![
            started(ToolCallSource::Direct),
            started(ToolCallSource::Direct)
        ]),
        Some(ReplayError::DuplicateToolCall)
    );
    assert_eq!(
        replay_error(vec![started(ToolCallSource::CodeMode {
            cell_id: "cell-1".to_string(),
            runtime_tool_call_id: "tool-1".to_string(),
        })]),
        Some(ReplayError::UnknownCodeCell)
    );
    assert_eq!(
        replay_error(vec![TraceEvent::ToolCallEnded {
            tool_call_id: "call".to_string(),
            status: ExecutionStatus::Completed,
            result: ToolResultPayload::CodeModeResponse {
                value: String::new()
            },
        }]),
        Some(ReplayError::UnknownToolCall)
    );
}

#[test]
fn payload_ids_lead_to_the_payloads_of_their_calls() {
    let (session, mut services, turn) = make_session_and_context();
    attach(&session, &mut services, &turn);
    let turn = Arc::new(turn);
    for (id, arguments) in [("one", "1"), ("two", "2"), ("three", "3")] {
        let invocation = test_invocation(
            Arc::clone(&session),
            Arc::clone(&turn),
            id,
            "test_tool",
            ToolCallSource::Direct,
            arguments,
        );
        let result = test_registry().dispatch_any_with_terminal_outcome(&mut services, &invocation);
        assert!(result.is_ok());
    }
    let rollout = replay(&services);
    assert_eq!(rollout.tool_calls.len(), 3);
    assert_eq!(rollout.payloads.len(), 6);
    for (id, expected) in [("one", "1"), ("two", "2"), ("three", "3")] {
        let call = tool_call(&rollout, id);
        match &rollout.payloads[call.raw_invocation_payload_id.expect("kept")] {
            RawPayload::ToolInvocation(ToolPayload::Function { arguments }) => {
                assert_eq!(arguments, expected);
            }
            other => panic!("{other:?}"),
        }
        match &rollout.payloads[call.raw_result_payload_id.expect("kept")] {
            RawPayload::ToolResult(ToolResultPayload::DirectResponse { call_id, .. }) => {
                assert_eq!(call_id, id);
            }
            other => panic!("{other:?}"),
        }
    }
}

#[test]
fn a_call_runs_until_it_ends() {
    let trace = ThreadTrace {
        bundle_dir: String::new(),
        events: vec![started(ToolCallSource::Direct)],
    };
    let rollout = replay_bundle(&trace).expect("the trace makes sense");
    assert_eq!(rollout.tool_calls[0].status, ExecutionStatus::Running);
    assert_eq!(rollout.tool_calls[0].raw_invocation_payload_id, Some(0));
    assert_eq!(rollout.tool_calls[0].raw_result_payload_id, None);
}
