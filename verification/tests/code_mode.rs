use std::sync::{Arc, Mutex};

use tokio::sync::Barrier;
use tokio_util::sync::CancellationToken;
use tool_dispatch::cell::{CellId, ExecuteRequest, RuntimeResponse, WaitOutcome, WaitRequest};
use tool_dispatch::code_mode::{Admission, CodeModeService, Execution};
use tool_dispatch::runtime::{CodeModeSession, ExecuteTask};
use tool_dispatch::session::{
    test_execute_request, TestCodeModeSession, TestCodeModeSessionProvider, TestTerminateOutcome,
};

/// A handle on a session that the test looks at too.
struct Shared(Arc<Mutex<TestCodeModeSession>>);

impl From<Arc<Mutex<TestCodeModeSession>>> for Shared {
    fn from(session: Arc<Mutex<TestCodeModeSession>>) -> Self {
        Shared(session)
    }
}

impl CodeModeSession for Shared {
    fn execute(&mut self, request: ExecuteRequest) -> ExecuteTask {
        self.0.lock().expect("not poisoned").execute(request)
    }

    fn wait(&mut self, request: WaitRequest) -> Result<WaitOutcome, String> {
        self.0.lock().expect("not poisoned").wait(request)
    }

    fn terminate(&mut self, cell_id: CellId) -> Result<WaitOutcome, String> {
        self.0.lock().expect("not poisoned").terminate(cell_id)
    }

    fn shutdown(&self) -> Result<(), String> {
        self.0.lock().expect("not poisoned").shutdown()
    }
}

fn service_over(session: &Arc<Mutex<TestCodeModeSession>>) -> CodeModeService<Shared> {
    let provider = TestCodeModeSessionProvider {
        session: Arc::clone(session),
    };
    CodeModeService::from_provider(&provider).expect("a session")
}

fn terminate_count(session: &Arc<Mutex<TestCodeModeSession>>) -> usize {
    session.lock().expect("not poisoned").terminate_count
}

fn execute_count(session: &Arc<Mutex<TestCodeModeSession>>) -> usize {
    session.lock().expect("not poisoned").execute_count
}

fn cell(name: &str) -> CellId {
    CellId::new(name.to_string())
}

fn idle_service() -> CodeModeService<TestCodeModeSession> {
    CodeModeService::new(TestCodeModeSession::new(
        TestTerminateOutcome::Terminated,
        cell("any"),
    ))
}

#[test]
fn interrupted_code_mode_cells_clear_terminal_dispatch_gates() {
    for terminate_outcome in [
        TestTerminateOutcome::Missing,
        TestTerminateOutcome::Terminated,
        TestTerminateOutcome::Result,
    ] {
        let cell_id = CellId::new(format!("{terminate_outcome:?}"));
        let session = Arc::new(Mutex::new(TestCodeModeSession::new(
            terminate_outcome,
            cell_id.clone(),
        )));
        let mut service = service_over(&session);
        let execution = service.execute(test_execute_request(), &CancellationToken::new());
        assert!(matches!(execution, Execution::Done(Ok(_))));

        let interrupted = service.interrupt_active_cells().expect("nothing is under way");
        assert_eq!(interrupted.len(), 1);
        assert_eq!(interrupted[0].cell_id.value, cell_id.value);
        service.mark_cell_ready_for_dispatch(&cell_id, None);
        let interrupted = service.interrupt_active_cells().expect("nothing is under way");
        assert!(interrupted.is_empty());

        assert_eq!(
            terminate_count(&session), 1,
            "{terminate_outcome:?} must close its dispatch gate",
        );
    }
}

#[test]
fn interrupt_waits_for_runtime_cell_admission_before_snapshotting_active_cells() {
    let execute_barrier = Arc::new(Barrier::new(2));
    let session = Arc::new(Mutex::new(TestCodeModeSession {
        terminate_outcome: TestTerminateOutcome::Terminated,
        cell_id: cell("created-before-admission"),
        execute_barrier: Some(Arc::clone(&execute_barrier)),
        execute_count: 0,
        terminate_count: 0,
    }));
    let mut service = service_over(&session);

    let waiting = service.execute(test_execute_request(), &CancellationToken::new());
    let Execution::Waiting(task) = waiting else {
        panic!("the execution has to meet the others first");
    };
    assert_eq!(execute_count(&session), 1);
    assert!(service.is_executing());
    let meets_at_the_barrier = match &task {
        ExecuteTask::AwaitBarrier { barrier, again, .. } => {
            Arc::ptr_eq(barrier, &execute_barrier) && *again
        }
        ExecuteTask::Over(_) => false,
    };
    assert!(meets_at_the_barrier);

    let Execution::Waiting(task) = service.resume_execute(task) else {
        panic!("the execution has to meet the others twice");
    };
    let interrupt_completed_before_admission = service.interrupt_active_cells().is_some();
    assert_eq!(terminate_count(&session), 0);

    let done = service.resume_execute(task);
    let started = match done {
        Execution::Done(Ok(started)) => started.cell_id.value,
        _ => panic!("the cell should have started"),
    };
    assert_eq!(started, "created-before-admission");
    if !interrupt_completed_before_admission {
        let interrupted = service.interrupt_active_cells().expect("nothing is under way");
        assert_eq!(interrupted.len(), 1);
        assert_eq!(interrupted[0].cell_id.value, "created-before-admission");
    }

    assert!(
        !interrupt_completed_before_admission,
        "interrupt must wait until a created runtime cell is admitted"
    );
    assert_eq!(
        terminate_count(&session), 1,
        "interrupt must terminate the cell admitted by the in-flight execution"
    );
}

#[test]
fn cancelled_runtime_cell_admission_does_not_start_a_cell() {
    let session = Arc::new(Mutex::new(TestCodeModeSession::new(
        TestTerminateOutcome::Terminated,
        cell("cancelled-before-admission"),
    )));
    let mut service = service_over(&session);
    let cancellation_token = CancellationToken::new();
    cancellation_token.cancel();

    assert!(service.interrupt_active_cells().is_some());
    let execution = service.execute(test_execute_request(), &cancellation_token);

    let error = match execution {
        Execution::Done(result) => result.err(),
        _ => panic!("the execution should be over"),
    };
    assert_eq!(error.as_deref(), Some("code mode execution cancelled"));
    assert_eq!(
        execute_count(&session), 0,
        "an interrupt completed before admission must prevent runtime execution"
    );
}

#[test]
fn a_started_cell_has_yielded_and_said_nothing() {
    let mut session = TestCodeModeSession::new(TestTerminateOutcome::Missing, cell("c"));
    let task = session.execute(test_execute_request());
    match task {
        ExecuteTask::Over(Ok(started)) => {
            assert_eq!(started.cell_id.value, "c");
            match started.initial_response {
                Ok(RuntimeResponse::Yielded {
                    code_mode_host_duration,
                    cell_id,
                    content_items,
                }) => {
                    assert_eq!(code_mode_host_duration, None);
                    assert_eq!(cell_id.value, "c");
                    assert!(content_items.is_empty());
                }
                other => panic!("{other:?}"),
            }
        }
        other => panic!("{other:?}"),
    }
    assert_eq!(session.execute_count, 1);
    assert_eq!(session.terminate_count, 0);
}

#[test]
fn a_missing_cell_is_reported_by_name() {
    let mut session = TestCodeModeSession::new(TestTerminateOutcome::Missing, cell("mine"));
    match session.terminate(cell("yours")) {
        Ok(WaitOutcome::MissingCell(RuntimeResponse::Result {
            code_mode_host_duration,
            cell_id,
            content_items,
            error_text,
        })) => {
            assert_eq!(code_mode_host_duration, None);
            assert_eq!(cell_id.value, "yours");
            assert!(content_items.is_empty());
            assert_eq!(error_text.as_deref(), Some("exec cell yours not found"));
        }
        other => panic!("{other:?}"),
    }
    assert_eq!(session.terminate_count, 1);
}

#[test]
fn a_terminated_cell_was_live() {
    let mut session = TestCodeModeSession::new(TestTerminateOutcome::Terminated, cell("mine"));
    match session.terminate(cell("mine")) {
        Ok(WaitOutcome::LiveCell(RuntimeResponse::Terminated { cell_id, .. })) => {
            assert_eq!(cell_id.value, "mine");
        }
        other => panic!("{other:?}"),
    }
}

#[test]
fn waiting_ends_the_cell() {
    let mut session = TestCodeModeSession::new(TestTerminateOutcome::Result, cell("mine"));
    match session.wait(WaitRequest {
        cell_id: cell("mine"),
    }) {
        Ok(WaitOutcome::LiveCell(RuntimeResponse::Result {
            cell_id,
            error_text,
            ..
        })) => {
            assert_eq!(cell_id.value, "mine");
            assert_eq!(error_text, None);
        }
        other => panic!("{other:?}"),
    }
    assert_eq!(session.terminate_count, 1);
    assert_eq!(session.shutdown(), Ok(()));
}

#[test]
fn counters_wrap_around() {
    let mut session = TestCodeModeSession::new(TestTerminateOutcome::Result, cell("mine"));
    session.terminate_count = usize::MAX;
    session.execute_count = usize::MAX;
    assert!(session.terminate(cell("mine")).is_ok());
    let _task = session.execute(test_execute_request());
    assert_eq!(session.terminate_count, 0);
    assert_eq!(session.execute_count, 0);
}

#[test]
fn a_provider_hands_out_the_session_it_holds() {
    let session = Arc::new(TestCodeModeSession::new(
        TestTerminateOutcome::Result,
        cell("mine"),
    ));
    let provider = TestCodeModeSessionProvider {
        session: Arc::clone(&session),
    };
    let created = provider.create_session(()).expect("a session");
    assert!(Arc::ptr_eq(&created, &session));
    assert_eq!(Arc::strong_count(&session), 3);
}

#[test]
fn the_execute_request_never_finishes() {
    let request = test_execute_request();
    assert_eq!(request.tool_call_id, "test-call");
    assert!(request.enabled_tools.is_empty());
    assert_eq!(request.source, "await new Promise(() => {});");
    assert_eq!(request.yield_time_ms, Some(1));
    assert_eq!(request.max_output_tokens, None);
}

#[test]
fn executions_are_kept_out_during_an_interrupt() {
    let session = TestCodeModeSession::new(TestTerminateOutcome::Result, cell("mine"));
    let mut service = CodeModeService::new(session);
    let cells = service.begin_interrupt().expect("nothing is under way");
    assert!(cells.is_empty());
    assert!(service.is_interrupting());
    assert!(service.begin_interrupt().is_none());
    assert_eq!(service.begin_execute(false), Admission::Blocked);
    assert_eq!(service.begin_execute(true), Admission::Cancelled);
    let cancelled = CancellationToken::new();
    cancelled.cancel();
    match service.execute(test_execute_request(), &cancelled) {
        Execution::Done(Err(error)) => assert_eq!(error, "code mode execution cancelled"),
        other => panic!("{other:?}"),
    }
    match service.execute_unless(test_execute_request(), false) {
        Execution::Blocked(request) => assert_eq!(request.tool_call_id, "test-call"),
        other => panic!("{other:?}"),
    }
    assert_eq!(service.session().execute_count, 0);

    service.finish_interrupt();
    assert_eq!(service.begin_execute(true), Admission::Cancelled);
    assert!(!service.is_executing());
    assert_eq!(service.begin_execute(false), Admission::Granted);
    assert!(service.is_executing());
    service.finish_execute(None);
    assert!(service.active_cells().is_empty());
}

#[test]
fn every_live_cell_is_ended_once() {
    let mut service = idle_service();
    for name in ["a", "b", "c", "b"] {
        assert_eq!(service.begin_execute(false), Admission::Granted);
        service.finish_execute(Some(&cell(name)));
    }
    let mut names: Vec<String> = service
        .active_cells()
        .into_iter()
        .map(|cell_id| cell_id.value)
        .collect();
    names.sort();
    assert_eq!(names, vec!["a", "b", "c"]);
    let mut ended: Vec<String> = service
        .interrupt_active_cells()
        .expect("nothing is under way")
        .into_iter()
        .map(|interrupted| match interrupted.reply {
            Ok(WaitOutcome::LiveCell(RuntimeResponse::Terminated { cell_id, .. })) => {
                assert_eq!(cell_id.value, interrupted.cell_id.value);
                cell_id.value
            }
            other => panic!("{other:?}"),
        })
        .collect();
    ended.sort();
    assert_eq!(ended, vec!["a", "b", "c"]);
    assert_eq!(service.session().terminate_count, 3);
    assert!(service.active_cells().is_empty());
}

#[test]
fn only_live_cells_become_ready() {
    let mut service = idle_service();
    assert_eq!(service.begin_execute(false), Admission::Granted);
    service.finish_execute(Some(&cell("a")));
    assert!(!service.is_ready_for_dispatch(&cell("a")));
    service.mark_cell_ready_for_dispatch(&cell("a"), Some("item".to_string()));
    service.mark_cell_ready_for_dispatch(&cell("b"), None);
    assert!(service.is_ready_for_dispatch(&cell("a")));
    assert!(!service.is_ready_for_dispatch(&cell("b")));
    assert_eq!(service.active_cells().len(), 1);
}

#[test]
fn a_cell_that_yields_stays_live() {
    let mut service = idle_service();
    assert_eq!(service.begin_execute(false), Admission::Granted);
    service.finish_execute(Some(&cell("a")));
    let yielded = Ok(WaitOutcome::LiveCell(RuntimeResponse::Yielded {
        code_mode_host_duration: None,
        cell_id: cell("a"),
        content_items: Vec::new(),
    }));
    service.observe_reply(&cell("a"), &yielded);
    service.observe_reply(&cell("a"), &Err("gone".to_string()));
    assert_eq!(service.active_cells().len(), 1);
    let terminated = Ok(WaitOutcome::LiveCell(RuntimeResponse::Terminated {
        code_mode_host_duration: None,
        cell_id: cell("a"),
        content_items: Vec::new(),
    }));
    service.observe_reply(&cell("a"), &terminated);
    assert!(service.active_cells().is_empty());
}

/// A session that writes down what it is asked and answers as it is told.
struct Scripted {
    asked: Vec<String>,
    started: Result<&'static str, &'static str>,
}

impl CodeModeSession for Scripted {
    fn execute(&mut self, request: ExecuteRequest) -> ExecuteTask {
        self.asked.push(format!("execute {}", request.source));
        let mut known = TestCodeModeSession::new(
            TestTerminateOutcome::Terminated,
            cell(self.started.unwrap_or("")),
        );
        match self.started {
            Ok(_) => known.execute(request),
            Err(error) => ExecuteTask::Over(Err(error.to_string())),
        }
    }

    fn wait(&mut self, request: WaitRequest) -> Result<WaitOutcome, String> {
        self.asked.push(format!("wait {}", request.cell_id.value));
        Ok(WaitOutcome::LiveCell(RuntimeResponse::Yielded {
            code_mode_host_duration: None,
            cell_id: request.cell_id,
            content_items: Vec::new(),
        }))
    }

    fn terminate(&mut self, cell_id: CellId) -> Result<WaitOutcome, String> {
        self.asked.push(format!("terminate {}", cell_id.value));
        match cell_id.value.as_str() {
            "fails" => Err("host is gone".to_string()),
            "yields" => self.wait(WaitRequest { cell_id }),
            _ => Ok(WaitOutcome::LiveCell(RuntimeResponse::Terminated {
                code_mode_host_duration: None,
                cell_id,
                content_items: Vec::new(),
            })),
        }
    }

    fn shutdown(&self) -> Result<(), String> {
        Ok(())
    }
}

#[test]
fn the_session_hears_what_is_asked_of_the_service() {
    let mut service = CodeModeService::new(Scripted {
        asked: Vec::new(),
        started: Ok("a"),
    });
    let execution = service.execute_unless(test_execute_request(), false);
    assert!(matches!(execution, Execution::Done(Ok(_))));
    assert!(service
        .wait_for_cell(WaitRequest { cell_id: cell("a") })
        .is_ok());
    assert_eq!(service.active_cells().len(), 1);
    assert!(service.terminate_cell(cell("a")).is_ok());
    assert!(service.active_cells().is_empty());
    assert_eq!(
        service.session().asked,
        vec![
            "execute await new Promise(() => {});",
            "wait a",
            "terminate a"
        ]
    );
}

#[test]
fn a_session_that_cannot_start_a_cell_leaves_none_live() {
    let mut service = CodeModeService::new(Scripted {
        asked: Vec::new(),
        started: Err("no runtime"),
    });
    match service.execute_unless(test_execute_request(), false) {
        Execution::Done(Err(error)) => assert_eq!(error, "no runtime"),
        other => panic!("{other:?}"),
    }
    assert!(!service.is_executing());
    assert!(service.active_cells().is_empty());
}

#[test]
fn cells_that_an_interrupt_cannot_end_stay_live() {
    let mut service = CodeModeService::new(Scripted {
        asked: Vec::new(),
        started: Ok("unused"),
    });
    for name in ["ends", "yields", "fails"] {
        assert_eq!(service.begin_execute(false), Admission::Granted);
        service.finish_execute(Some(&cell(name)));
    }
    let interrupted = service.interrupt_active_cells().expect("nothing is under way");
    assert_eq!(interrupted.len(), 3);
    let mut left: Vec<String> = service
        .active_cells()
        .into_iter()
        .map(|cell_id| cell_id.value)
        .collect();
    left.sort();
    assert_eq!(left, vec!["fails", "yields"]);
    for name in ["ends", "yields", "fails"] {
        assert!(service.session().asked.contains(&format!("terminate {name}")));
    }
    assert!(!service.is_interrupting());
}
