//! A code-mode session whose behaviour is fixed in advance: it starts one known cell and answers
//! every request to end a cell in one known way, and it counts what it is asked.

use crate::cell::{
    texts, CellId, ExecuteRequest, OutcomeView, ResponseView, RuntimeResponse, WaitOutcome,
    WaitRequest,
};
use crate::runtime::{
    freshly_started, resumed, start_cell, terminates_all, CodeModeSession, ExecuteTask, TaskView,
};
use std::sync::Arc;
use tokio::sync::Barrier;
use vstd::prelude::*;

verus! {

/// How the session answers a request to end a cell.
#[derive(Clone, Copy, Debug, PartialEq, Eq, Structural)]
pub enum TestTerminateOutcome {
    /// It does not know the cell.
    Missing,
    /// It ends the cell.
    Terminated,
    /// The cell has just finished by itself.
    Result,
}

/// A session that plays a fixed part.
#[derive(Debug)]
pub struct TestCodeModeSession {
    pub terminate_outcome: TestTerminateOutcome,
    /// The cell that every execution starts.
    pub cell_id: CellId,
    /// Where an execution meets other tasks, twice, before its cell starts.
    pub execute_barrier: Option<Arc<Barrier>>,
    pub execute_count: usize,
    pub terminate_count: usize,
}

/// A counter after one more call; it wraps around.
pub open spec fn counted(count: usize) -> usize {
    if count == usize::MAX {
        0
    } else {
        (count + 1) as usize
    }
}

/// A counter after `calls` more calls.
pub open spec fn counted_times(count: usize, calls: nat) -> usize
    decreases calls,
{
    if calls == 0 {
        count
    } else {
        counted(counted_times(count, (calls - 1) as nat))
    }
}

/// As long as a counter does not wrap around, it holds the number of calls.
pub proof fn law_counter_counts_calls(count: usize, calls: nat)
    requires
        count + calls <= usize::MAX,
    ensures
        counted_times(count, calls) == count + calls,
    decreases calls,
{
    if calls > 0 {
        law_counter_counts_calls(count, (calls - 1) as nat);
    }
}

/// What the session says of a cell that it cannot find.
pub open spec fn not_found_text(cell_id: Seq<char>) -> Seq<char> {
    "exec cell "@ + cell_id + " not found"@
}

/// The session's answer to a request to end `cell_id`.
pub open spec fn terminate_reply(part: TestTerminateOutcome, cell_id: Seq<char>) -> OutcomeView {
    match part {
        TestTerminateOutcome::Missing => OutcomeView::MissingCell(
            ResponseView::Result {
                code_mode_host_duration: None,
                cell_id,
                content_items: Seq::empty(),
                error_text: Some(not_found_text(cell_id)),
            },
        ),
        TestTerminateOutcome::Terminated => OutcomeView::LiveCell(
            ResponseView::Terminated {
                code_mode_host_duration: None,
                cell_id,
                content_items: Seq::empty(),
            },
        ),
        TestTerminateOutcome::Result => OutcomeView::LiveCell(
            ResponseView::Result {
                code_mode_host_duration: None,
                cell_id,
                content_items: Seq::empty(),
                error_text: None,
            },
        ),
    }
}

/// The execution that a session with this barrier and cell hands out.
pub open spec fn execution(barrier: Option<Arc<Barrier>>, cell_id: Seq<char>) -> TaskView {
    match barrier {
        Some(barrier) => TaskView::AwaitBarrier { barrier: *barrier, again: true, cell_id },
        None => TaskView::Over(Ok(freshly_started(cell_id))),
    }
}

/// A session with a barrier starts its cell after exactly two meetings at that barrier; one
/// without starts it at once.
pub proof fn law_two_meetings_before_start(barrier: Option<Arc<Barrier>>, cell_id: Seq<char>)
    ensures
        barrier is None ==> execution(barrier, cell_id) == TaskView::Over(
            Ok(freshly_started(cell_id)),
        ),
        barrier matches Some(meeting) ==> {
            let first = execution(barrier, cell_id);
            let second = resumed(first);
            &&& first matches TaskView::AwaitBarrier { barrier: at, .. } && at == *meeting
            &&& second matches TaskView::AwaitBarrier { barrier: at, .. } && at == *meeting
            &&& resumed(second) == TaskView::Over(Ok(freshly_started(cell_id)))
        },
{
}

impl TestCodeModeSession {
    /// A session without a barrier that has been asked nothing yet.
    pub fn new(terminate_outcome: TestTerminateOutcome, cell_id: CellId) -> (session: Self)
        ensures
            session.terminate_outcome == terminate_outcome,
            session.cell_id == cell_id,
            session.execute_barrier is None,
            session.execute_count == 0,
            session.terminate_count == 0,
    {
        TestCodeModeSession {
            terminate_outcome,
            cell_id,
            execute_barrier: None,
            execute_count: 0,
            terminate_count: 0,
        }
    }

    /// The session as it was, but for one more execution counted.
    pub open spec fn after_execute(self) -> Self {
        TestCodeModeSession { execute_count: counted(self.execute_count), ..self }
    }

    /// The session as it was, but for one more termination counted.
    pub open spec fn after_terminate(self) -> Self {
        TestCodeModeSession { terminate_count: counted(self.terminate_count), ..self }
    }

    /// The session as it was, but for `calls` more terminations counted.
    pub open spec fn after_terminates(self, calls: nat) -> Self {
        TestCodeModeSession { terminate_count: counted_times(self.terminate_count, calls), ..self }
    }
}

impl CodeModeSession for TestCodeModeSession {
    open spec fn executes(self, request: ExecuteRequest, after: Self, task: TaskView) -> bool {
        after == self.after_execute() && task == execution(self.execute_barrier, self.cell_id@)
    }

    open spec fn waits(
        self,
        cell_id: Seq<char>,
        after: Self,
        reply: Result<OutcomeView, Seq<char>>,
    ) -> bool {
        self.terminates(cell_id, after, reply)
    }

    open spec fn terminates(
        self,
        cell_id: Seq<char>,
        after: Self,
        reply: Result<OutcomeView, Seq<char>>,
    ) -> bool {
        after == self.after_terminate() && reply == Ok::<OutcomeView, Seq<char>>(
            terminate_reply(self.terminate_outcome, cell_id),
        )
    }

    open spec fn shuts_down(self, done: Result<(), Seq<char>>) -> bool {
        done is Ok
    }

    /// Counts the execution at once, then meets the others at the barrier, where there is one,
    /// twice, and then starts the session's cell. What is asked for makes no difference.
    fn execute(&mut self, _request: ExecuteRequest) -> (task: ExecuteTask) {
        self.execute_count = self.execute_count.wrapping_add(1);
        match &self.execute_barrier {
            Some(barrier) => ExecuteTask::AwaitBarrier {
                barrier: Arc::clone(barrier),
                again: true,
                cell_id: self.cell_id.clone(),
            },
            None => ExecuteTask::Over(Ok(start_cell(self.cell_id.clone()))),
        }
    }

    /// Waiting on a cell ends it.
    fn wait(&mut self, request: WaitRequest) -> (reply: Result<WaitOutcome, String>) {
        self.terminate(request.cell_id)
    }

    /// Counts the request and answers it as the session's part has it.
    fn terminate(&mut self, cell_id: CellId) -> (reply: Result<WaitOutcome, String>) {
        self.terminate_count = self.terminate_count.wrapping_add(1);
        let content_items: Vec<String> = Vec::new();
        assert(texts(content_items@) =~= Seq::empty());
        let response = match self.terminate_outcome {
            TestTerminateOutcome::Missing | TestTerminateOutcome::Result => {
                let error_text = if self.terminate_outcome == TestTerminateOutcome::Missing {
                    let mut text = "exec cell ".to_string();
                    text.append(cell_id.value.as_str());
                    text.append(" not found");
                    Some(text)
                } else {
                    None
                };
                RuntimeResponse::Result {
                    code_mode_host_duration: None,
                    cell_id,
                    content_items,
                    error_text,
                }
            },
            TestTerminateOutcome::Terminated => RuntimeResponse::Terminated {
                code_mode_host_duration: None,
                cell_id,
                content_items,
            },
        };
        Ok(
            match self.terminate_outcome {
                TestTerminateOutcome::Missing => WaitOutcome::MissingCell(response),
                TestTerminateOutcome::Terminated | TestTerminateOutcome::Result => {
                    WaitOutcome::LiveCell(response)
                },
            },
        )
    }

    /// There is nothing to shut down.
    fn shutdown(&self) -> (done: Result<(), String>) {
        Ok(())
    }
}

/// A session that was asked to end some cells has counted each of them, and has answered of each
/// by its own name as the session's part has it.
pub proof fn law_each_cell_is_ended_by_name(
    session: TestCodeModeSession,
    cells: Seq<Seq<char>>,
    after: TestCodeModeSession,
    replies: Seq<Result<OutcomeView, Seq<char>>>,
)
    requires
        terminates_all(session, cells, after, replies),
    ensures
        after == session.after_terminates(cells.len()),
        replies.len() == cells.len(),
        forall|i: int|
            0 <= i < cells.len() ==> #[trigger] replies[i] == Ok::<OutcomeView, Seq<char>>(
                terminate_reply(session.terminate_outcome, cells[i]),
            ),
    decreases cells.len(),
{
    if cells.len() > 0 {
        let last = choose|last: TestCodeModeSession|
            terminates_all(session, cells.drop_last(), last, replies.drop_last())
                && #[trigger] last.terminates(cells.last(), after, replies.last());
        law_each_cell_is_ended_by_name(session, cells.drop_last(), last, replies.drop_last());
        assert forall|i: int| 0 <= i < cells.len() implies #[trigger] replies[i] == Ok::<
            OutcomeView,
            Seq<char>,
        >(terminate_reply(session.terminate_outcome, cells[i])) by {
            if i < cells.len() - 1 {
                assert(replies.drop_last()[i] == replies[i]);
                assert(cells.drop_last()[i] == cells[i]);
            }
        }
    }
}

/// Hands out the one session that it holds.
#[derive(Debug)]
pub struct TestCodeModeSessionProvider<S> {
    pub session: Arc<S>,
}

impl<S> TestCodeModeSessionProvider<S> {
    /// The session, shared with whoever asked before; the delegate it is created for makes no
    /// difference.
    pub fn create_session<D>(&self, _delegate: D) -> (created: Result<Arc<S>, String>)
        ensures
            created == Ok::<Arc<S>, String>(self.session),
    {
        Ok(Arc::clone(&self.session))
    }
}

/// An execution of a source that never finishes, which yields after a millisecond.
pub fn test_execute_request() -> (request: ExecuteRequest)
    ensures
        request.tool_call_id@ == "test-call"@,
        request.enabled_tools@ == Seq::<String>::empty(),
        request.source@ == "await new Promise(() => {});"@,
        request.yield_time_ms == Some(1u64),
        request.max_output_tokens is None,
{
    ExecuteRequest {
        tool_call_id: "test-call".to_string(),
        enabled_tools: Vec::new(),
        source: "await new Promise(() => {});".to_string(),
        yield_time_ms: Some(1),
        max_output_tokens: None,
    }
}

/// A new session plays the part it is given, starts the cell it is given at once, and has counted
/// nothing.
pub proof fn law_new_session_has_counted_nothing(
    terminate_outcome: TestTerminateOutcome,
    cell_id: CellId,
    session: TestCodeModeSession,
)
    requires
        call_ensures(TestCodeModeSession::new, (terminate_outcome, cell_id), session),
    ensures
        session.terminate_outcome == terminate_outcome,
        session.cell_id.value@ == cell_id.value@,
        session.execute_barrier is None,
        session.execute_count == 0 && session.terminate_count == 0,
{
}

/// Every execution, whatever is asked for, adds one to the executions counted and starts the
/// session's own cell, after two meetings at its barrier where it has one. Nothing else of the
/// session changes.
pub proof fn law_executions_start_the_sessions_cell(
    session: &mut TestCodeModeSession,
    request: ExecuteRequest,
    task: ExecuteTask,
)
    requires
        call_ensures(
            <TestCodeModeSession as CodeModeSession>::execute,
            (session, request),
            task,
        ),
    ensures
        old(session).execute_count < usize::MAX ==> final(session).execute_count == old(session).execute_count + 1,
        old(session).execute_count == usize::MAX ==> final(session).execute_count == 0,
        final(session).terminate_count == old(session).terminate_count,
        final(session).terminate_outcome == old(session).terminate_outcome,
        final(session).cell_id == old(session).cell_id,
        final(session).execute_barrier == old(session).execute_barrier,
        old(session).execute_barrier matches Some(meeting) ==> {
            &&& task matches ExecuteTask::AwaitBarrier { barrier, again, cell_id }
            &&& *barrier == *meeting
            &&& again
            &&& cell_id.value@ == old(session).cell_id.value@
        },
        old(session).execute_barrier is None ==> {
            &&& task matches ExecuteTask::Over(Ok(started))
            &&& started.cell_id.value@ == old(session).cell_id.value@
            &&& started.initial_response matches Ok(
                RuntimeResponse::Yielded { code_mode_host_duration, cell_id, content_items },
            )
            &&& code_mode_host_duration is None
            &&& cell_id.value@ == old(session).cell_id.value@
            &&& content_items@.len() == 0
        },
{
    if let ExecuteTask::Over(Ok(started)) = task {
        if let Ok(RuntimeResponse::Yielded { content_items, .. }) = started.initial_response {
            assert(texts(content_items@).len() == content_items@.len());
        }
    }
}

/// A request to end a cell adds one to those counted and changes nothing else of the session.
/// The answer speaks of the cell that was named: a session whose part is to miss cells says that
/// it was not found, one whose part is to end them says that it was terminated, and one whose
/// part is to have finished says so without an error. None of them tells of any output.
pub proof fn law_ended_cells_are_answered_by_part(
    session: &mut TestCodeModeSession,
    cell_id: CellId,
    reply: Result<WaitOutcome, String>,
)
    requires
        call_ensures(
            <TestCodeModeSession as CodeModeSession>::terminate,
            (session, cell_id),
            reply,
        ),
    ensures
        answered_by_part(*old(session), cell_id.value@, *final(session), reply),
{
    lemma_no_output(reply);
}

/// Waiting for a cell is answered, and counted, as ending it is.
pub proof fn law_awaited_cells_are_answered_by_part(
    session: &mut TestCodeModeSession,
    request: WaitRequest,
    reply: Result<WaitOutcome, String>,
)
    requires
        call_ensures(<TestCodeModeSession as CodeModeSession>::wait, (session, request), reply),
    ensures
        answered_by_part(*old(session), request.cell_id.value@, *final(session), reply),
{
    lemma_no_output(reply);
}

/// The session `before` was asked once to end the cell `named`, and stands as `after`.
pub open spec fn answered_by_part(
    before: TestCodeModeSession,
    named: Seq<char>,
    after: TestCodeModeSession,
    reply: Result<WaitOutcome, String>,
) -> bool {
    &&& before.terminate_count < usize::MAX ==> after.terminate_count == before.terminate_count + 1
    &&& before.terminate_count == usize::MAX ==> after.terminate_count == 0
    &&& after.execute_count == before.execute_count
    &&& after.terminate_outcome == before.terminate_outcome
    &&& after.cell_id == before.cell_id
    &&& after.execute_barrier == before.execute_barrier
    &&& match before.terminate_outcome {
        TestTerminateOutcome::Missing => {
            &&& reply matches Ok(
                WaitOutcome::MissingCell(
                    RuntimeResponse::Result {
                        code_mode_host_duration,
                        cell_id,
                        content_items,
                        error_text,
                    },
                ),
            )
            &&& code_mode_host_duration is None
            &&& cell_id.value@ == named
            &&& content_items@.len() == 0
            &&& error_text matches Some(text)
            &&& text@ == "exec cell "@ + named + " not found"@
        },
        TestTerminateOutcome::Terminated => {
            &&& reply matches Ok(
                WaitOutcome::LiveCell(
                    RuntimeResponse::Terminated { code_mode_host_duration, cell_id, content_items },
                ),
            )
            &&& code_mode_host_duration is None
            &&& cell_id.value@ == named
            &&& content_items@.len() == 0
        },
        TestTerminateOutcome::Result => {
            &&& reply matches Ok(
                WaitOutcome::LiveCell(
                    RuntimeResponse::Result {
                        code_mode_host_duration,
                        cell_id,
                        content_items,
                        error_text,
                    },
                ),
            )
            &&& code_mode_host_duration is None
            &&& cell_id.value@ == named
            &&& content_items@.len() == 0
            &&& error_text is None
        },
    }
}

proof fn lemma_no_output(reply: Result<WaitOutcome, String>)
    ensures
        reply matches Ok(WaitOutcome::MissingCell(RuntimeResponse::Result { content_items, .. }))
            ==> texts(content_items@).len() == content_items@.len(),
        reply matches Ok(WaitOutcome::LiveCell(RuntimeResponse::Result { content_items, .. }))
            ==> texts(content_items@).len() == content_items@.len(),
        reply matches Ok(WaitOutcome::LiveCell(RuntimeResponse::Terminated { content_items, .. }))
            ==> texts(content_items@).len() == content_items@.len(),
{
}

/// Shutting the session down always works.
pub proof fn law_shutdown_works(session: TestCodeModeSession, done: Result<(), String>)
    requires
        call_ensures(<TestCodeModeSession as CodeModeSession>::shutdown, (&session,), done),
    ensures
        done is Ok,
{
}

/// Whoever asks a provider, and for whatever delegate, is given the session that it holds.
pub proof fn law_providers_hand_out_their_session<S, D>(
    provider: TestCodeModeSessionProvider<S>,
    delegate: D,
    created: Result<Arc<S>, String>,
)
    requires
        call_ensures(
            TestCodeModeSessionProvider::<S>::create_session::<D>,
            (&provider, delegate),
            created,
        ),
    ensures
        created matches Ok(session) && session == provider.session,
{
}

/// The test request asks for a source that never finishes, for no tools, and to hear back after
/// a millisecond.
pub proof fn law_test_requests_never_finish(request: ExecuteRequest)
    requires
        call_ensures(test_execute_request, (), request),
    ensures
        request.tool_call_id@ == "test-call"@,
        request.enabled_tools@.len() == 0,
        request.source@ == "await new Promise(() => {});"@,
        request.yield_time_ms matches Some(after) && after == 1,
        request.max_output_tokens is None,
{
}

} // verus!
