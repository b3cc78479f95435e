//! The trace of a thread: what is written down as a session runs.

use crate::cell::text_opt;
use crate::context::{Session, SessionServices, TurnContext};
use crate::invocation::{DispatchView, ToolDispatchInvocation};
use vstd::prelude::*;

verus! {

/// What a thread was started for.
#[derive(Debug)]
pub enum SessionSource {
    Exec,
}

/// What the trace keeps of the start of a thread.
#[derive(Debug)]
pub struct ThreadStartedTraceMetadata {
    pub thread_id: String,
    pub agent_path: String,
    pub task_name: Option<String>,
    pub nickname: Option<String>,
    pub agent_role: Option<String>,
    pub session_source: SessionSource,
    pub cwd: String,
    pub rollout_path: Option<String>,
    pub model: String,
    pub provider_name: String,
    pub approval_policy: String,
    pub sandbox_policy: String,
}

/// A `ThreadStartedTraceMetadata` with its strings read as texts.
pub struct MetadataView {
    pub thread_id: Seq<char>,
    pub agent_path: Seq<char>,
    pub task_name: Option<Seq<char>>,
    pub nickname: Option<Seq<char>>,
    pub agent_role: Option<Seq<char>>,
    pub session_source: SessionSource,
    pub cwd: Seq<char>,
    pub rollout_path: Option<Seq<char>>,
    pub model: Seq<char>,
    pub provider_name: Seq<char>,
    pub approval_policy: Seq<char>,
    pub sandbox_policy: Seq<char>,
}

impl View for ThreadStartedTraceMetadata {
    type V = MetadataView;

    open spec fn view(&self) -> MetadataView {
        MetadataView {
            thread_id: self.thread_id@,
            agent_path: self.agent_path@,
            task_name: text_opt(self.task_name),
            nickname: text_opt(self.nickname),
            agent_role: text_opt(self.agent_role),
            session_source: self.session_source,
            cwd: self.cwd@,
            rollout_path: text_opt(self.rollout_path),
            model: self.model@,
            provider_name: self.provider_name@,
            approval_policy: self.approval_policy@,
            sandbox_policy: self.sandbox_policy@,
        }
    }
}

/// How a traced call stands.
#[derive(Clone, Copy, Debug, PartialEq, Eq, Structural)]
pub enum ExecutionStatus {
    Running,
    Completed,
    Failed,
}

/// What the trace keeps of the result of a call.
#[derive(Debug)]
pub enum ToolResultPayload {
    /// What the model is shown.
    DirectResponse { call_id: String, text: String, success: Option<bool> },
    /// What the code in the cell is given.
    CodeModeResponse { value: String },
    /// Why the call failed.
    Error { message: String },
}

/// A `ToolResultPayload` with its strings read as texts.
pub enum ResultPayloadView {
    DirectResponse { call_id: Seq<char>, text: Seq<char>, success: Option<bool> },
    CodeModeResponse { value: Seq<char> },
    Error { message: Seq<char> },
}

impl View for ToolResultPayload {
    type V = ResultPayloadView;

    open spec fn view(&self) -> ResultPayloadView {
        match *self {
            ToolResultPayload::DirectResponse { call_id, text, success } => {
                ResultPayloadView::DirectResponse { call_id: call_id@, text: text@, success }
            },
            ToolResultPayload::CodeModeResponse { value } => ResultPayloadView::CodeModeResponse {
                value: value@,
            },
            ToolResultPayload::Error { message } => ResultPayloadView::Error {
                message: message@,
            },
        }
    }
}

impl Clone for ToolResultPayload {
    fn clone(&self) -> (copy: Self)
        ensures
            copy == *self,
    {
        match self {
            ToolResultPayload::DirectResponse { call_id, text, success } => {
                ToolResultPayload::DirectResponse {
                    call_id: call_id.clone(),
                    text: text.clone(),
                    success: *success,
                }
            },
            ToolResultPayload::CodeModeResponse { value } => ToolResultPayload::CodeModeResponse {
                value: value.clone(),
            },
            ToolResultPayload::Error { message } => ToolResultPayload::Error {
                message: message.clone(),
            },
        }
    }
}

/// One thing that happened.
#[derive(Debug)]
pub enum TraceEvent {
    ThreadStarted(ThreadStartedTraceMetadata),
    TurnStarted { codex_turn_id: String },
    CodeCellStarted {
        codex_turn_id: String,
        runtime_cell_id: String,
        model_visible_call_id: String,
        source: String,
    },
    ToolCallStarted(ToolDispatchInvocation),
    ToolCallEnded { tool_call_id: String, status: ExecutionStatus, result: ToolResultPayload },
}

/// A `TraceEvent` with its strings read as texts.
pub enum EventView {
    ThreadStarted(MetadataView),
    TurnStarted { codex_turn_id: Seq<char> },
    CodeCellStarted {
        codex_turn_id: Seq<char>,
        runtime_cell_id: Seq<char>,
        model_visible_call_id: Seq<char>,
        source: Seq<char>,
    },
    ToolCallStarted(DispatchView),
    ToolCallEnded { tool_call_id: Seq<char>, status: ExecutionStatus, result: ResultPayloadView },
}

impl View for TraceEvent {
    type V = EventView;

    open spec fn view(&self) -> EventView {
        match *self {
            TraceEvent::ThreadStarted(metadata) => EventView::ThreadStarted(metadata@),
            TraceEvent::TurnStarted { codex_turn_id } => EventView::TurnStarted {
                codex_turn_id: codex_turn_id@,
            },
            TraceEvent::CodeCellStarted {
                codex_turn_id,
                runtime_cell_id,
                model_visible_call_id,
                source,
            } => EventView::CodeCellStarted {
                codex_turn_id: codex_turn_id@,
                runtime_cell_id: runtime_cell_id@,
                model_visible_call_id: model_visible_call_id@,
                source: source@,
            },
            TraceEvent::ToolCallStarted(call) => EventView::ToolCallStarted(call@),
            TraceEvent::ToolCallEnded { tool_call_id, status, result } => {
                EventView::ToolCallEnded { tool_call_id: tool_call_id@, status, result: result@ }
            },
        }
    }
}

/// Events, each with its strings read as texts.
pub open spec fn event_views(events: Seq<TraceEvent>) -> Seq<EventView> {
    events.map_values(|event: TraceEvent| event@)
}

/// The trace of a thread.
#[derive(Debug)]
pub struct ThreadTrace {
    /// The directory that the trace is kept in.
    pub bundle_dir: String,
    /// What happened, in order.
    pub events: Vec<TraceEvent>,
}

impl ThreadTrace {
    /// The trace of a thread that has just started.
    pub fn start_root(bundle_dir: String, metadata: ThreadStartedTraceMetadata) -> (trace: Self)
        ensures
            trace.bundle_dir == bundle_dir,
            trace.events@ == seq![TraceEvent::ThreadStarted(metadata)],
    {
        let mut events: Vec<TraceEvent> = Vec::new();
        events.push(TraceEvent::ThreadStarted(metadata));
        ThreadTrace { bundle_dir, events }
    }

    /// Writes down that a turn has started.
    pub fn record_codex_turn_started(&mut self, codex_turn_id: &str)
        ensures
            final(self).bundle_dir == old(self).bundle_dir,
            final(self).events@.len() == old(self).events@.len() + 1,
            final(self).events@.drop_last() == old(self).events@,
            final(self).events@.last() matches TraceEvent::TurnStarted { codex_turn_id: turn }
                && turn@ == codex_turn_id@,
    {
        self.events.push(TraceEvent::TurnStarted { codex_turn_id: codex_turn_id.to_string() });
        assert(self.events@.drop_last() =~= old(self).events@);
    }

    /// Writes down that a call of the model has started a cell.
    pub fn start_code_cell_trace(
        &mut self,
        codex_turn_id: &str,
        runtime_cell_id: &str,
        model_visible_call_id: &str,
        source: &str,
    )
        ensures
            final(self).bundle_dir == old(self).bundle_dir,
            final(self).events@.len() == old(self).events@.len() + 1,
            final(self).events@.drop_last() == old(self).events@,
            final(self).events@.last() matches TraceEvent::CodeCellStarted {
                codex_turn_id: turn,
                runtime_cell_id: cell,
                model_visible_call_id: call,
                source: code,
            } && turn@ == codex_turn_id@ && cell@ == runtime_cell_id@ && call@
                == model_visible_call_id@ && code@ == source@,
    {
        self.events.push(
            TraceEvent::CodeCellStarted {
                codex_turn_id: codex_turn_id.to_string(),
                runtime_cell_id: runtime_cell_id.to_string(),
                model_visible_call_id: model_visible_call_id.to_string(),
                source: source.to_string(),
            },
        );
        assert(self.events@.drop_last() =~= old(self).events@);
    }
}

/// The start of the thread of a test session.
pub open spec fn is_test_thread_start(
    metadata: ThreadStartedTraceMetadata,
    thread_id: String,
) -> bool {
    &&& metadata.thread_id == thread_id
    &&& metadata.agent_path@ == "/root"@
    &&& metadata.task_name is None
    &&& metadata.nickname is None
    &&& metadata.agent_role is None
    &&& metadata.session_source is Exec
    &&& metadata.cwd@ == "/workspace"@
    &&& metadata.rollout_path is None
    &&& metadata.model@ == "gpt-test"@
    &&& metadata.provider_name@ == "test-provider"@
    &&& metadata.approval_policy@ == "never"@
    &&& metadata.sandbox_policy@ == "danger-full-access"@
}

/// Gives the session a new trace, kept in the directory that was opened for it, in which its
/// thread and then `turn` have started. Where no directory could be opened, its services stay
/// as they were.
pub fn attach_test_trace<S, E>(
    session: &Session,
    services: &mut SessionServices<S>,
    turn: &TurnContext,
    opened: Result<String, E>,
) -> (attached: Result<(), E>)
    ensures
        match opened {
            Ok(bundle_dir) => {
                &&& attached is Ok
                &&& final(services).code_mode_service == old(services).code_mode_service
                &&& final(services).rollout_thread_trace matches Some(trace)
                &&& trace.bundle_dir == bundle_dir
                &&& trace.events@.len() == 2
                &&& trace.events@[0] matches TraceEvent::ThreadStarted(metadata)
                &&& is_test_thread_start(metadata, session.thread_id)
                &&& trace.events@[1] matches TraceEvent::TurnStarted { codex_turn_id }
                &&& codex_turn_id@ == turn.sub_id@
            },
            Err(error) => attached == Err::<(), E>(error) && *final(services) == *old(services),
        },
{
    let thread_id = session.thread_id.clone();
    let bundle_dir = match opened {
        Ok(bundle_dir) => bundle_dir,
        Err(error) => {
            return Err(error);
        },
    };
    let mut rollout_thread_trace = ThreadTrace::start_root(
        bundle_dir,
        ThreadStartedTraceMetadata {
            thread_id,
            agent_path: "/root".to_string(),
            task_name: None,
            nickname: None,
            agent_role: None,
            session_source: SessionSource::Exec,
            cwd: "/workspace".to_string(),
            rollout_path: None,
            model: "gpt-test".to_string(),
            provider_name: "test-provider".to_string(),
            approval_policy: "never".to_string(),
            sandbox_policy: "danger-full-access".to_string(),
        },
    );
    rollout_thread_trace.record_codex_turn_started(turn.sub_id.as_str());
    assert(rollout_thread_trace.events@[0] == rollout_thread_trace.events@.drop_last()[0]);
    services.rollout_thread_trace = Some(rollout_thread_trace);
    Ok(())
}

/// The only entry of the directory that traces are kept in. The first entry that could not be
/// read stands for them all.
pub fn single_bundle_dir<P, E>(entries: Vec<Result<P, E>>) -> (dir: Result<P, E>)
    requires
        entries@.len() == 1 || exists|i: int|
            0 <= i < entries@.len() && (#[trigger] entries@[i]) is Err,
    ensures
        (forall|i: int| 0 <= i < entries@.len() ==> (#[trigger] entries@[i]) is Ok) ==> dir
            == entries@[0],
        forall|i: int|
            0 <= i < entries@.len() && (#[trigger] entries@[i]) is Err && (forall|j: int|
                0 <= j < i ==> (#[trigger] entries@[j]) is Ok) ==> dir == entries@[i],
{
    let ghost read = entries@;
    let mut left = entries;
    let mut i: usize = 0;
    while i < left.len()
        invariant
            left@ == read,
            read == entries@,
            i <= left.len(),
            forall|j: int| 0 <= j < i ==> (#[trigger] read[j]) is Ok,
        decreases left.len() - i,
    {
        if left[i].is_err() {
            return left.remove(i);
        }
        i += 1;
    }
    left.remove(0)
}

/// A trace starts with the start of its thread and nothing else, in the directory it is given.
pub proof fn law_traces_start_with_their_thread(
    bundle_dir: String,
    metadata: ThreadStartedTraceMetadata,
    trace: ThreadTrace,
)
    requires
        call_ensures(ThreadTrace::start_root, (bundle_dir, metadata), trace),
    ensures
        trace.bundle_dir@ == bundle_dir@,
        trace.events@.len() == 1,
        trace.events@[0] == TraceEvent::ThreadStarted(metadata),
{
}

/// The start of a turn is written behind all that was written before.
pub proof fn law_turns_are_written_down_in_order(trace: &mut ThreadTrace, codex_turn_id: &str)
    requires
        call_ensures(ThreadTrace::record_codex_turn_started, (trace, codex_turn_id), ()),
    ensures
        final(trace).bundle_dir == old(trace).bundle_dir,
        final(trace).events@.len() == old(trace).events@.len() + 1,
        forall|i: int|
            0 <= i < old(trace).events@.len() ==> #[trigger] final(trace).events@[i] == old(trace).events@[i],
        final(trace).events@[old(trace).events@.len() as int] matches TraceEvent::TurnStarted {
            codex_turn_id: turn,
        } && turn@ == codex_turn_id@,
{
    assert forall|i: int| 0 <= i < old(trace).events@.len() implies #[trigger] final(trace).events@[i] == old(trace).events@[i] by {
        assert(final(trace).events@[i] == final(trace).events@.drop_last()[i]);
    }
}

/// The start of a cell is written behind all that was written before, with all that is said of
/// it.
pub proof fn law_cells_are_written_down_in_order(
    trace: &mut ThreadTrace,
    codex_turn_id: &str,
    runtime_cell_id: &str,
    model_visible_call_id: &str,
    source: &str,
)
    requires
        call_ensures(
            ThreadTrace::start_code_cell_trace,
            (trace, codex_turn_id, runtime_cell_id, model_visible_call_id, source),
            (),
        ),
    ensures
        final(trace).bundle_dir == old(trace).bundle_dir,
        final(trace).events@.len() == old(trace).events@.len() + 1,
        forall|i: int|
            0 <= i < old(trace).events@.len() ==> #[trigger] final(trace).events@[i] == old(trace).events@[i],
        final(trace).events@[old(trace).events@.len() as int] matches TraceEvent::CodeCellStarted {
            codex_turn_id: turn,
            runtime_cell_id: cell,
            model_visible_call_id: call,
            source: code,
        } && turn@ == codex_turn_id@ && cell@ == runtime_cell_id@ && call@
            == model_visible_call_id@ && code@ == source@,
{
    assert forall|i: int| 0 <= i < old(trace).events@.len() implies #[trigger] final(trace).events@[i] == old(trace).events@[i] by {
        assert(final(trace).events@[i] == final(trace).events@.drop_last()[i]);
    }
}

/// Where a directory could be opened, the session gets a trace in it that tells of the session's
/// own thread, as a test thread, and then of the turn. Where none could, the error comes back and
/// nothing changes. The code-mode service is not touched.
pub proof fn law_attached_traces_tell_of_thread_and_turn<S, E>(
    session: Session,
    services: &mut SessionServices<S>,
    turn: TurnContext,
    opened: Result<String, E>,
    attached: Result<(), E>,
)
    requires
        call_ensures(
            attach_test_trace::<S, E>,
            (&session, services, &turn, opened),
            attached,
        ),
    ensures
        final(services).code_mode_service == old(services).code_mode_service,
        opened matches Err(error) ==> attached == Err::<(), E>(error) && final(services).rollout_thread_trace == old(services).rollout_thread_trace,
        opened matches Ok(bundle_dir) ==> {
            &&& attached is Ok
            &&& final(services).rollout_thread_trace matches Some(trace)
            &&& trace.bundle_dir@ == bundle_dir@
            &&& trace.events@.len() == 2
            &&& trace.events@[0] matches TraceEvent::ThreadStarted(metadata)
            &&& metadata.thread_id@ == session.thread_id@
            &&& metadata.agent_path@ == "/root"@
            &&& metadata.task_name is None
            &&& metadata.nickname is None
            &&& metadata.agent_role is None
            &&& metadata.session_source is Exec
            &&& metadata.cwd@ == "/workspace"@
            &&& metadata.rollout_path is None
            &&& metadata.model@ == "gpt-test"@
            &&& metadata.provider_name@ == "test-provider"@
            &&& metadata.approval_policy@ == "never"@
            &&& metadata.sandbox_policy@ == "danger-full-access"@
            &&& trace.events@[1] matches TraceEvent::TurnStarted { codex_turn_id }
            &&& codex_turn_id@ == turn.sub_id@
        },
{
}

/// What is found in the directory of traces is its only entry, or the first error in the order
/// that the entries came in.
pub proof fn law_single_entries_are_found<P, E>(entries: Vec<Result<P, E>>, dir: Result<P, E>)
    requires
        call_ensures(single_bundle_dir::<P, E>, (entries,), dir),
    ensures
        entries@.len() == 1 ==> dir == entries@[0],
        forall|i: int|
            0 <= i < entries@.len() && (#[trigger] entries@[i]) is Err && (forall|j: int|
                0 <= j < i ==> (#[trigger] entries@[j]) is Ok) ==> dir == entries@[i],
{
}

/// The view of an event keeps its kind and everything in it.
pub proof fn law_views_keep_events(event: TraceEvent)
    ensures
        event matches TraceEvent::ThreadStarted(metadata) ==> event@ == EventView::ThreadStarted(
            metadata@,
        ),
        event matches TraceEvent::TurnStarted { codex_turn_id } ==> event@ == (
        EventView::TurnStarted { codex_turn_id: codex_turn_id@ }),
        event matches TraceEvent::CodeCellStarted {
            codex_turn_id,
            runtime_cell_id,
            model_visible_call_id,
            source,
        } ==> event@ == (EventView::CodeCellStarted {
            codex_turn_id: codex_turn_id@,
            runtime_cell_id: runtime_cell_id@,
            model_visible_call_id: model_visible_call_id@,
            source: source@,
        }),
        event matches TraceEvent::ToolCallStarted(call) ==> event@ == EventView::ToolCallStarted(
            call@,
        ),
        event matches TraceEvent::ToolCallEnded { tool_call_id, status, result } ==> event@ == (
        EventView::ToolCallEnded { tool_call_id: tool_call_id@, status, result: result@ }),
{
}

/// The view of a result keeps its kind and everything in it.
pub proof fn law_views_keep_results(result: ToolResultPayload)
    ensures
        result matches ToolResultPayload::DirectResponse { call_id, text, success } ==> result@ == (
        ResultPayloadView::DirectResponse { call_id: call_id@, text: text@, success }),
        result matches ToolResultPayload::CodeModeResponse { value } ==> result@ == (
        ResultPayloadView::CodeModeResponse { value: value@ }),
        result matches ToolResultPayload::Error { message } ==> result@ == (
        ResultPayloadView::Error { message: message@ }),
{
}

/// The view of a thread's start keeps everything in it.
pub proof fn law_views_keep_thread_starts(metadata: ThreadStartedTraceMetadata)
    ensures
        metadata@.thread_id == metadata.thread_id@,
        metadata@.agent_path == metadata.agent_path@,
        metadata@.cwd == metadata.cwd@,
        metadata@.model == metadata.model@,
        metadata@.provider_name == metadata.provider_name@,
        metadata@.approval_policy == metadata.approval_policy@,
        metadata@.sandbox_policy == metadata.sandbox_policy@,
        metadata@.session_source == metadata.session_source,
        metadata.task_name is None <==> metadata@.task_name is None,
        metadata.task_name matches Some(text) ==> metadata@.task_name == Some(text@),
        metadata.nickname is None <==> metadata@.nickname is None,
        metadata.nickname matches Some(text) ==> metadata@.nickname == Some(text@),
        metadata.agent_role is None <==> metadata@.agent_role is None,
        metadata.agent_role matches Some(text) ==> metadata@.agent_role == Some(text@),
        metadata.rollout_path is None <==> metadata@.rollout_path is None,
        metadata.rollout_path matches Some(text) ==> metadata@.rollout_path == Some(text@),
{
}

} // verus!
