//! Reading a trace back: what calls there were, who asked for them and what became of them.

use crate::cell::{copy_text, text_opt};
use crate::invocation::{
    traced_invocation, DispatchRequesterView, DispatchView, ToolDispatchInvocation,
    ToolDispatchRequester, ToolInvocation,
};
use crate::registry::{ended_event, result_payload, started_event, status_of};
use crate::tool::{PayloadView, ToolPayload, ToolResult};
use crate::trace::{
    event_views, EventView, ExecutionStatus, MetadataView, ResultPayloadView, ThreadTrace,
    ToolResultPayload, TraceEvent,
};
use vstd::prelude::*;

verus! {

/// Who asked for a call.
#[derive(Debug)]
pub enum ToolCallRequester {
    Model,
    CodeCell { code_cell_id: String },
}

/// Who asked for a call.
pub enum RequesterView {
    Model,
    CodeCell { code_cell_id: Seq<char> },
}

impl View for ToolCallRequester {
    type V = RequesterView;

    open spec fn view(&self) -> RequesterView {
        match *self {
            ToolCallRequester::Model => RequesterView::Model,
            ToolCallRequester::CodeCell { code_cell_id } => RequesterView::CodeCell {
                code_cell_id: code_cell_id@,
            },
        }
    }
}

/// One call, as the trace tells it.
#[derive(Debug)]
pub struct ReplayedToolCall {
    pub tool_call_id: String,
    pub thread_id: String,
    pub codex_turn_id: String,
    pub tool_name: String,
    pub tool_namespace: Option<String>,
    /// What the model knows the call by, if the model made it.
    pub model_visible_call_id: Option<String>,
    /// What the runtime knows the call by, if code in a cell made it.
    pub code_mode_runtime_tool_id: Option<String>,
    pub requester: ToolCallRequester,
    pub status: ExecutionStatus,
    /// Which payload the call carried.
    pub raw_invocation_payload_id: Option<usize>,
    /// Which payload it came to, once it has ended.
    pub raw_result_payload_id: Option<usize>,
}

/// A `ReplayedToolCall` with its strings read as texts.
#[verifier::ext_equal]
pub struct ToolCallView {
    pub tool_call_id: Seq<char>,
    pub thread_id: Seq<char>,
    pub codex_turn_id: Seq<char>,
    pub tool_name: Seq<char>,
    pub tool_namespace: Option<Seq<char>>,
    pub model_visible_call_id: Option<Seq<char>>,
    pub code_mode_runtime_tool_id: Option<Seq<char>>,
    pub requester: RequesterView,
    pub status: ExecutionStatus,
    pub raw_invocation_payload_id: Option<nat>,
    pub raw_result_payload_id: Option<nat>,
}

/// The number of a payload, as a natural number.
pub open spec fn payload_id(id: Option<usize>) -> Option<nat> {
    match id {
        Some(id) => Some(id as nat),
        None => None,
    }
}

impl View for ReplayedToolCall {
    type V = ToolCallView;

    open spec fn view(&self) -> ToolCallView {
        ToolCallView {
            tool_call_id: self.tool_call_id@,
            thread_id: self.thread_id@,
            codex_turn_id: self.codex_turn_id@,
            tool_name: self.tool_name@,
            tool_namespace: text_opt(self.tool_namespace),
            model_visible_call_id: text_opt(self.model_visible_call_id),
            code_mode_runtime_tool_id: text_opt(self.code_mode_runtime_tool_id),
            requester: self.requester@,
            status: self.status,
            raw_invocation_payload_id: payload_id(self.raw_invocation_payload_id),
            raw_result_payload_id: payload_id(self.raw_result_payload_id),
        }
    }
}

/// One cell, as the trace tells it.
#[derive(Debug)]
pub struct ReplayedCodeCell {
    pub code_cell_id: String,
    pub codex_turn_id: String,
    pub runtime_cell_id: String,
    pub model_visible_call_id: String,
    pub source: String,
}

/// A `ReplayedCodeCell` with its strings read as texts.
pub struct CodeCellView {
    pub code_cell_id: Seq<char>,
    pub codex_turn_id: Seq<char>,
    pub runtime_cell_id: Seq<char>,
    pub model_visible_call_id: Seq<char>,
    pub source: Seq<char>,
}

impl View for ReplayedCodeCell {
    type V = CodeCellView;

    open spec fn view(&self) -> CodeCellView {
        CodeCellView {
            code_cell_id: self.code_cell_id@,
            codex_turn_id: self.codex_turn_id@,
            runtime_cell_id: self.runtime_cell_id@,
            model_visible_call_id: self.model_visible_call_id@,
            source: self.source@,
        }
    }
}

/// A payload, kept as it was.
#[derive(Debug)]
pub enum RawPayload {
    ToolInvocation(ToolPayload),
    ToolResult(ToolResultPayload),
}

/// A `RawPayload` with its strings read as texts.
pub enum RawPayloadView {
    ToolInvocation(PayloadView),
    ToolResult(ResultPayloadView),
}

impl View for RawPayload {
    type V = RawPayloadView;

    open spec fn view(&self) -> RawPayloadView {
        match *self {
            RawPayload::ToolInvocation(payload) => RawPayloadView::ToolInvocation(payload@),
            RawPayload::ToolResult(result) => RawPayloadView::ToolResult(result@),
        }
    }
}

/// All that a trace tells.
#[derive(Debug)]
pub struct ReplayedRollout {
    pub tool_calls: Vec<ReplayedToolCall>,
    pub code_cells: Vec<ReplayedCodeCell>,
    pub payloads: Vec<RawPayload>,
}

/// A `ReplayedRollout` with its strings read as texts.
#[verifier::ext_equal]
pub struct RolloutView {
    pub tool_calls: Seq<ToolCallView>,
    pub code_cells: Seq<CodeCellView>,
    pub payloads: Seq<RawPayloadView>,
}

/// Calls, each with its strings read as texts.
pub open spec fn call_views(calls: Seq<ReplayedToolCall>) -> Seq<ToolCallView> {
    calls.map_values(|call: ReplayedToolCall| call@)
}

/// Cells, each with its strings read as texts.
pub open spec fn cell_views(cells: Seq<ReplayedCodeCell>) -> Seq<CodeCellView> {
    cells.map_values(|cell: ReplayedCodeCell| cell@)
}

/// Payloads, each with its strings read as texts.
pub open spec fn payload_views(payloads: Seq<RawPayload>) -> Seq<RawPayloadView> {
    payloads.map_values(|payload: RawPayload| payload@)
}

impl View for ReplayedRollout {
    type V = RolloutView;

    open spec fn view(&self) -> RolloutView {
        RolloutView {
            tool_calls: call_views(self.tool_calls@),
            code_cells: cell_views(self.code_cells@),
            payloads: payload_views(self.payloads@),
        }
    }
}

/// Why a trace makes no sense.
#[derive(Clone, Copy, Debug, PartialEq, Eq, Structural)]
pub enum ReplayError {
    /// Two cells go by one id at runtime.
    DuplicateCodeCell,
    /// A call comes from a cell that never started.
    UnknownCodeCell,
    /// Two calls go by one id.
    DuplicateToolCall,
    /// A call ends that never started.
    UnknownToolCall,
}

/// A trace that tells nothing yet.
pub open spec fn blank() -> RolloutView {
    RolloutView { tool_calls: Seq::empty(), code_cells: Seq::empty(), payloads: Seq::empty() }
}

/// Whether a call goes by `tool_call_id`.
pub open spec fn has_call(calls: Seq<ToolCallView>, tool_call_id: Seq<char>) -> bool {
    exists|i: int| 0 <= i < calls.len() && (#[trigger] calls[i]).tool_call_id == tool_call_id
}

/// The cell that the runtime knows by `runtime_cell_id`.
pub open spec fn find_cell(
    cells: Seq<CodeCellView>,
    runtime_cell_id: Seq<char>,
) -> Option<CodeCellView>
    decreases cells.len(),
{
    if cells.len() == 0 {
        None
    } else if cells.last().runtime_cell_id == runtime_cell_id {
        Some(cells.last())
    } else {
        find_cell(cells.drop_last(), runtime_cell_id)
    }
}

/// What a cell is known by in the trace: the call that started it.
pub open spec fn code_cell_name(model_visible_call_id: Seq<char>) -> Seq<char> {
    "code_cell:"@ + model_visible_call_id
}

/// Who asked for a call, in terms of the cells that are known.
pub open spec fn requester_view(
    cells: Seq<CodeCellView>,
    requester: DispatchRequesterView,
) -> Option<RequesterView> {
    match requester {
        DispatchRequesterView::Model { .. } => Some(RequesterView::Model),
        DispatchRequesterView::CodeCell { runtime_cell_id, .. } => match find_cell(
            cells,
            runtime_cell_id,
        ) {
            Some(cell) => Some(RequesterView::CodeCell { code_cell_id: cell.code_cell_id }),
            None => None,
        },
    }
}

/// A call that has just started, whose payload has the number `payload`.
pub open spec fn running_call(
    call: DispatchView,
    requester: RequesterView,
    payload: nat,
) -> ToolCallView {
    ToolCallView {
        tool_call_id: call.tool_call_id,
        thread_id: call.thread_id,
        codex_turn_id: call.codex_turn_id,
        tool_name: call.tool_name,
        tool_namespace: call.tool_namespace,
        model_visible_call_id: match call.requester {
            DispatchRequesterView::Model { model_visible_call_id } => Some(model_visible_call_id),
            DispatchRequesterView::CodeCell { .. } => None,
        },
        code_mode_runtime_tool_id: match call.requester {
            DispatchRequesterView::Model { .. } => None,
            DispatchRequesterView::CodeCell { runtime_tool_call_id, .. } => Some(
                runtime_tool_call_id,
            ),
        },
        requester,
        status: ExecutionStatus::Running,
        raw_invocation_payload_id: Some(payload),
        raw_result_payload_id: None,
    }
}

/// A call after it has ended, whose result has the number `payload`.
pub open spec fn ended_call(
    call: ToolCallView,
    status: ExecutionStatus,
    payload: nat,
) -> ToolCallView {
    ToolCallView { status, raw_result_payload_id: Some(payload), ..call }
}

/// The calls after the one that goes by `tool_call_id` has ended.
pub open spec fn after_end(
    calls: Seq<ToolCallView>,
    tool_call_id: Seq<char>,
    status: ExecutionStatus,
    payload: nat,
) -> Seq<ToolCallView> {
    calls.map_values(
        |call: ToolCallView|
            if call.tool_call_id == tool_call_id {
                ended_call(call, status, payload)
            } else {
                call
            },
    )
}

/// What a trace tells after one more event.
pub open spec fn replay_step(told: RolloutView, event: EventView) -> Result<
    RolloutView,
    ReplayError,
> {
    match event {
        EventView::ThreadStarted(_) => Ok(told),
        EventView::TurnStarted { .. } => Ok(told),
        EventView::CodeCellStarted {
            codex_turn_id,
            runtime_cell_id,
            model_visible_call_id,
            source,
        } => if find_cell(told.code_cells, runtime_cell_id) is Some {
            Err(ReplayError::DuplicateCodeCell)
        } else {
            Ok(
                RolloutView {
                    code_cells: told.code_cells.push(
                        CodeCellView {
                            code_cell_id: code_cell_name(model_visible_call_id),
                            codex_turn_id: codex_turn_id,
                            runtime_cell_id: runtime_cell_id,
                            model_visible_call_id: model_visible_call_id,
                            source: source,
                        },
                    ),
                    ..told
                },
            )
        },
        EventView::ToolCallStarted(call) => if has_call(told.tool_calls, call.tool_call_id) {
            Err(ReplayError::DuplicateToolCall)
        } else {
            match requester_view(told.code_cells, call.requester) {
                None => Err(ReplayError::UnknownCodeCell),
                Some(requester) => Ok(
                    RolloutView {
                        tool_calls: told.tool_calls.push(
                            running_call(call, requester, told.payloads.len()),
                        ),
                        payloads: told.payloads.push(RawPayloadView::ToolInvocation(call.payload)),
                        ..told
                    },
                ),
            }
        },
        EventView::ToolCallEnded { tool_call_id, status, result } => if has_call(
            told.tool_calls,
            tool_call_id,
        ) {
            Ok(
                RolloutView {
                    tool_calls: after_end(
                        told.tool_calls,
                        tool_call_id,
                        status,
                        told.payloads.len(),
                    ),
                    payloads: told.payloads.push(RawPayloadView::ToolResult(result)),
                    ..told
                },
            )
        } else {
            Err(ReplayError::UnknownToolCall)
        },
    }
}

/// What `events` tell, or the first thing about them that makes no sense.
pub open spec fn replayed(events: Seq<EventView>) -> Result<RolloutView, ReplayError>
    decreases events.len(),
{
    if events.len() == 0 {
        Ok(blank())
    } else {
        match replayed(events.drop_last()) {
            Ok(told) => replay_step(told, events.last()),
            Err(error) => Err(error),
        }
    }
}

proof fn lemma_replay_stops_at_error(events: Seq<EventView>, upto: int)
    requires
        0 <= upto <= events.len(),
        replayed(events.take(upto)) is Err,
    ensures
        replayed(events) == replayed(events.take(upto)),
    decreases events.len(),
{
    if upto == events.len() {
        assert(events.take(upto) =~= events);
    } else {
        assert(events.drop_last().take(upto) =~= events.take(upto));
        lemma_replay_stops_at_error(events.drop_last(), upto);
    }
}

impl ReplayedRollout {
    fn has_call(&self, tool_call_id: &String) -> (yes: bool)
        ensures
            yes == has_call(self@.tool_calls, tool_call_id@),
    {
        let mut i: usize = 0;
        while i < self.tool_calls.len()
            invariant
                i <= self.tool_calls.len(),
                forall|k: int|
                    0 <= k < i ==> (#[trigger] self@.tool_calls[k]).tool_call_id != tool_call_id@,
            decreases self.tool_calls.len() - i,
        {
            assert(self@.tool_calls[i as int] == self.tool_calls[i as int]@);
            if self.tool_calls[i].tool_call_id == *tool_call_id {
                return true;
            }
            i += 1;
        }
        false
    }

    fn cell(&self, runtime_cell_id: &String) -> (found: Option<&ReplayedCodeCell>)
        ensures
            match found {
                Some(cell) => find_cell(self@.code_cells, runtime_cell_id@) == Some(cell@),
                None => find_cell(self@.code_cells, runtime_cell_id@) is None,
            },
    {
        let mut i: usize = self.code_cells.len();
        assert(self@.code_cells.take(i as int) =~= self@.code_cells);
        while i > 0
            invariant
                i <= self.code_cells.len(),
                find_cell(self@.code_cells, runtime_cell_id@) == find_cell(
                    self@.code_cells.take(i as int),
                    runtime_cell_id@,
                ),
            decreases i,
        {
            assert(self@.code_cells.take(i as int).drop_last() =~= self@.code_cells.take(i - 1));
            assert(self@.code_cells.take(i as int).last() == self.code_cells[i - 1]@);
            if self.code_cells[i - 1].runtime_cell_id == *runtime_cell_id {
                return Some(&self.code_cells[i - 1]);
            }
            i -= 1;
        }
        None
    }

    fn end_call(&mut self, tool_call_id: &String, status: ExecutionStatus, payload: usize)
        ensures
            final(self)@.tool_calls == after_end(
                old(self)@.tool_calls,
                tool_call_id@,
                status,
                payload as nat,
            ),
            final(self).code_cells == old(self).code_cells,
            final(self).payloads == old(self).payloads,
    {
        let ghost before = self.tool_calls@;
        let mut i: usize = 0;
        while i < self.tool_calls.len()
            invariant
                i <= self.tool_calls.len(),
                before == old(self).tool_calls@,
                self.tool_calls.len() == before.len(),
                self.code_cells == old(self).code_cells,
                self.payloads == old(self).payloads,
                forall|k: int|
                    0 <= k < i ==> (#[trigger] self.tool_calls@[k])@ == if before[k]@.tool_call_id
                        == tool_call_id@ {
                        ended_call(before[k]@, status, payload as nat)
                    } else {
                        before[k]@
                    },
                forall|k: int|
                    i <= k < before.len() ==> #[trigger] self.tool_calls@[k] == before[k],
            decreases self.tool_calls.len() - i,
        {
            if self.tool_calls[i].tool_call_id == *tool_call_id {
                self.tool_calls[i].status = status;
                self.tool_calls[i].raw_result_payload_id = Some(payload);
            }
            i += 1;
        }
        assert(self@.tool_calls =~= after_end(
            old(self)@.tool_calls,
            tool_call_id@,
            status,
            payload as nat,
        ));
    }

    fn start_call(&mut self, call: &ToolDispatchInvocation) -> (taken: Result<(), ReplayError>)
        ensures
            match replay_step(old(self)@, EventView::ToolCallStarted(call@)) {
                Ok(told) => taken is Ok && final(self)@ == told,
                Err(error) => taken == Err::<(), ReplayError>(error),
            },
    {
        if self.has_call(&call.tool_call_id) {
            return Err(ReplayError::DuplicateToolCall);
        }
        let requester = match &call.requester {
            ToolDispatchRequester::Model { .. } => ToolCallRequester::Model,
            ToolDispatchRequester::CodeCell { runtime_cell_id, .. } => {
                match self.cell(runtime_cell_id) {
                    Some(cell) => ToolCallRequester::CodeCell {
                        code_cell_id: cell.code_cell_id.clone(),
                    },
                    None => {
                        return Err(ReplayError::UnknownCodeCell);
                    },
                }
            },
        };
        let (model_visible_call_id, code_mode_runtime_tool_id) = match &call.requester {
            ToolDispatchRequester::Model { model_visible_call_id } => (
                Some(model_visible_call_id.clone()),
                None,
            ),
            ToolDispatchRequester::CodeCell { runtime_tool_call_id, .. } => (
                None,
                Some(runtime_tool_call_id.clone()),
            ),
        };
        let replayed_call = ReplayedToolCall {
            tool_call_id: call.tool_call_id.clone(),
            thread_id: call.thread_id.clone(),
            codex_turn_id: call.codex_turn_id.clone(),
            tool_name: call.tool_name.clone(),
            tool_namespace: copy_text(&call.tool_namespace),
            model_visible_call_id,
            code_mode_runtime_tool_id,
            requester,
            status: ExecutionStatus::Running,
            raw_invocation_payload_id: Some(self.payloads.len()),
            raw_result_payload_id: None,
        };
        self.payloads.push(RawPayload::ToolInvocation(call.payload.clone()));
        self.tool_calls.push(replayed_call);
        assert(self@.payloads =~= old(self)@.payloads.push(
            RawPayloadView::ToolInvocation(call.payload@),
        ));
        assert(self@.tool_calls =~= old(self)@.tool_calls.push(replayed_call@));
        Ok(())
    }

    fn step(&mut self, event: &TraceEvent) -> (taken: Result<(), ReplayError>)
        ensures
            match replay_step(old(self)@, event@) {
                Ok(told) => taken is Ok && final(self)@ == told,
                Err(error) => taken == Err::<(), ReplayError>(error),
            },
    {
        match event {
            TraceEvent::ThreadStarted(_) => Ok(()),
            TraceEvent::TurnStarted { .. } => Ok(()),
            TraceEvent::CodeCellStarted {
                codex_turn_id,
                runtime_cell_id,
                model_visible_call_id,
                source,
            } => {
                if self.cell(runtime_cell_id).is_some() {
                    return Err(ReplayError::DuplicateCodeCell);
                }
                let mut code_cell_id = "code_cell:".to_string();
                code_cell_id.append(model_visible_call_id.as_str());
                let cell = ReplayedCodeCell {
                    code_cell_id,
                    codex_turn_id: codex_turn_id.clone(),
                    runtime_cell_id: runtime_cell_id.clone(),
                    model_visible_call_id: model_visible_call_id.clone(),
                    source: source.clone(),
                };
                self.code_cells.push(cell);
                assert(self@.code_cells =~= old(self)@.code_cells.push(cell@));
                Ok(())
            },
            TraceEvent::ToolCallStarted(call) => self.start_call(call),
            TraceEvent::ToolCallEnded { tool_call_id, status, result } => {
                if !self.has_call(tool_call_id) {
                    return Err(ReplayError::UnknownToolCall);
                }
                let payload: usize = self.payloads.len();
                self.end_call(tool_call_id, *status, payload);
                self.payloads.push(RawPayload::ToolResult(result.clone()));
                assert(self@.payloads =~= old(self)@.payloads.push(
                    RawPayloadView::ToolResult(result@),
                ));
                Ok(())
            },
        }
    }
}

/// Reads a trace back.
pub fn replay_bundle(trace: &ThreadTrace) -> (told: Result<ReplayedRollout, ReplayError>)
    ensures
        match replayed(event_views(trace.events@)) {
            Ok(rollout) => told matches Ok(read) && read@ == rollout,
            Err(error) => told == Err::<ReplayedRollout, ReplayError>(error),
        },
{
    let mut rollout = ReplayedRollout {
        tool_calls: Vec::new(),
        code_cells: Vec::new(),
        payloads: Vec::new(),
    };
    let ghost events = event_views(trace.events@);
    assert(rollout@ =~= blank());
    let mut i: usize = 0;
    while i < trace.events.len()
        invariant
            i <= trace.events.len(),
            events == event_views(trace.events@),
            replayed(events.take(i as int)) == Ok::<RolloutView, ReplayError>(rollout@),
        decreases trace.events.len() - i,
    {
        assert(events.take(i + 1).drop_last() =~= events.take(i as int));
        match rollout.step(&trace.events[i]) {
            Ok(()) => {},
            Err(error) => {
                proof {
                    lemma_replay_stops_at_error(events, i + 1);
                }
                return Err(error);
            },
        }
        i += 1;
    }
    assert(events.take(i as int) =~= events);
    Ok(rollout)
}

/// A call as the trace tells it once its dispatch is over, if `payloads` payloads were kept
/// before.
pub open spec fn dispatched_call(
    invocation: ToolInvocation,
    requester: RequesterView,
    result: ToolResult,
    payloads: nat,
) -> ToolCallView {
    ended_call(
        running_call(traced_invocation(invocation)@, requester, payloads),
        status_of(result),
        payloads + 1,
    )
}

/// What is written down of a dispatch is read back: the trace tells of
/// one call more, with both its payloads, and all else stays as it was told before.
pub proof fn law_dispatch_is_replayed(
    events: Seq<EventView>,
    told: RolloutView,
    invocation: ToolInvocation,
    requester: RequesterView,
    result: ToolResult,
)
    requires
        replayed(events) == Ok::<RolloutView, ReplayError>(told),
        !has_call(told.tool_calls, invocation.call_id@),
        requester_view(told.code_cells, traced_invocation(invocation)@.requester) == Some(requester),
    ensures
        replayed(events + seq![started_event(invocation)@, ended_event(invocation, result)@]) == Ok::<
            RolloutView,
            ReplayError,
        >(
            RolloutView {
                tool_calls: told.tool_calls.push(
                    dispatched_call(invocation, requester, result, told.payloads.len()),
                ),
                code_cells: told.code_cells,
                payloads: told.payloads.push(RawPayloadView::ToolInvocation(invocation.payload@)).push(
                    RawPayloadView::ToolResult(result_payload(invocation, result)@),
                ),
            },
        ),
{
    let started = started_event(invocation)@;
    let ended = ended_event(invocation, result)@;
    let all = events + seq![started, ended];
    assert(all.drop_last() =~= events.push(started));
    assert(events.push(started).drop_last() =~= events);
    let running = running_call(traced_invocation(invocation)@, requester, told.payloads.len());
    let calls = told.tool_calls.push(running);
    assert(calls[told.tool_calls.len() as int].tool_call_id == invocation.call_id@);
    assert(has_call(calls, invocation.call_id@));
    let midway = RolloutView {
        tool_calls: calls,
        payloads: told.payloads.push(RawPayloadView::ToolInvocation(invocation.payload@)),
        ..told
    };
    assert(events.push(started).last() == started);
    assert(replayed(events.push(started)) == Ok::<RolloutView, ReplayError>(midway));
    assert(all.last() == ended);
    assert(replayed(all) == replay_step(midway, ended));
    assert(after_end(calls, invocation.call_id@, status_of(result), told.payloads.len() + 1)
        =~= told.tool_calls.push(
        dispatched_call(invocation, requester, result, told.payloads.len()),
    ));
}

/// A direct call is the model's, which knows it by its call id; both its payloads are kept.
pub proof fn law_direct_calls_are_the_models(
    cells: Seq<CodeCellView>,
    invocation: ToolInvocation,
    result: ToolResult,
    payloads: nat,
)
    requires
        invocation.source is Direct,
    ensures
        requester_view(cells, traced_invocation(invocation)@.requester) == Some(
            RequesterView::Model,
        ),
        ({
            let call = dispatched_call(invocation, RequesterView::Model, result, payloads);
            &&& call.model_visible_call_id == Some(invocation.call_id@)
            &&& call.code_mode_runtime_tool_id is None
            &&& call.raw_invocation_payload_id == Some(payloads)
            &&& call.raw_result_payload_id == Some(payloads + 1)
        }),
{
}

/// A call from a cell is that cell's, which is known by the call that started it; the model does
/// not see the call, and the runtime knows it by its own id.
pub proof fn law_code_mode_calls_are_their_cells(
    events: Seq<EventView>,
    told: RolloutView,
    started: EventView,
    invocation: ToolInvocation,
    result: ToolResult,
    payloads: nat,
)
    requires
        replayed(events) == Ok::<RolloutView, ReplayError>(told),
        started is CodeCellStarted,
        find_cell(told.code_cells, started->runtime_cell_id) is None,
        invocation.source is CodeMode,
        invocation.source->cell_id@ == started->runtime_cell_id,
    ensures
        ({
            let requester = RequesterView::CodeCell {
                code_cell_id: code_cell_name(started->model_visible_call_id),
            };
            let call = dispatched_call(invocation, requester, result, payloads);
            &&& replayed(events.push(started)) matches Ok(later)
            &&& later.tool_calls == told.tool_calls
            &&& later.payloads == told.payloads
            &&& requester_view(later.code_cells, traced_invocation(invocation)@.requester) == Some(
                requester,
            )
            &&& call.requester == requester
            &&& call.model_visible_call_id is None
            &&& call.code_mode_runtime_tool_id == Some(
                invocation.source->runtime_tool_call_id@,
            )
            &&& call.raw_invocation_payload_id == Some(payloads)
            &&& call.raw_result_payload_id == Some(payloads + 1)
        }),
{
    assert(events.push(started).drop_last() =~= events);
    let later = replayed(events.push(started))->Ok_0;
    assert(later.code_cells.last().runtime_cell_id == started->runtime_cell_id);
}

/// A call that fails is traced as failed, with the reason kept as its result.
pub proof fn law_failed_calls_are_traced_as_failed(
    invocation: ToolInvocation,
    requester: RequesterView,
    result: ToolResult,
    payloads: nat,
)
    requires
        result is Err,
    ensures
        dispatched_call(invocation, requester, result, payloads).status == ExecutionStatus::Failed,
        dispatched_call(invocation, requester, result, payloads).raw_result_payload_id is Some,
        result_payload(invocation, result) is Error,
{
}

/// The default namespace is not traced, whether it is said outright or not.
pub proof fn law_default_namespace_is_not_traced(invocation: ToolInvocation)
    requires
        !(invocation.tool_name.namespace is Named),
    ensures
        traced_invocation(invocation).tool_namespace is None,
{
}

/// In every trace that makes sense, calls go by different ids, and the payload ids of a call lead
/// to a payload that a call carried and to one that a call came to.
pub proof fn law_replayed_calls_are_sound(events: Seq<EventView>, told: RolloutView)
    requires
        replayed(events) == Ok::<RolloutView, ReplayError>(told),
    ensures
        forall|i: int, j: int|
            0 <= i < j < told.tool_calls.len() ==> (#[trigger] told.tool_calls[i]).tool_call_id != (
            #[trigger] told.tool_calls[j]).tool_call_id,
        forall|i: int|
            0 <= i < told.tool_calls.len() ==> {
                let call = #[trigger] told.tool_calls[i];
                &&& call.raw_invocation_payload_id matches Some(carried)
                &&& carried < told.payloads.len()
                &&& told.payloads[carried as int] is ToolInvocation
                &&& call.raw_result_payload_id matches Some(result) ==> {
                    &&& result < told.payloads.len()
                    &&& told.payloads[result as int] is ToolResult
                }
            },
    decreases events.len(),
{
    if events.len() > 0 {
        let before = replayed(events.drop_last())->Ok_0;
        law_replayed_calls_are_sound(events.drop_last(), before);
        match events.last() {
            EventView::ToolCallStarted(call) => {
                assert forall|i: int| 0 <= i < before.tool_calls.len() implies (
                #[trigger] told.tool_calls[i]).tool_call_id != call.tool_call_id by {
                    assert(told.tool_calls[i] == before.tool_calls[i]);
                }
            },
            _ => {},
        }
    }
}

proof fn lemma_found_cell(cells: Seq<CodeCellView>, runtime_cell_id: Seq<char>)
    ensures
        match find_cell(cells, runtime_cell_id) {
            Some(cell) => cell.runtime_cell_id == runtime_cell_id && exists|i: int|
                0 <= i < cells.len() && #[trigger] cells[i] == cell,
            None => forall|i: int|
                0 <= i < cells.len() ==> (#[trigger] cells[i]).runtime_cell_id != runtime_cell_id,
        },
    decreases cells.len(),
{
    if cells.len() > 0 {
        let fewer = cells.drop_last();
        lemma_found_cell(fewer, runtime_cell_id);
        assert(cells[cells.len() - 1] == cells.last());
        if cells.last().runtime_cell_id != runtime_cell_id {
            if let Some(cell) = find_cell(fewer, runtime_cell_id) {
                let i = choose|i: int| 0 <= i < fewer.len() && #[trigger] fewer[i] == cell;
                assert(cells[i] == cell);
            } else {
                assert forall|i: int| 0 <= i < cells.len() implies (
                #[trigger] cells[i]).runtime_cell_id != runtime_cell_id by {
                    if i < fewer.len() {
                        assert(fewer[i] == cells[i]);
                    }
                }
            }
        }
    }
}

/// A trace without events tells nothing, and once a trace makes no sense, nothing that follows
/// mends it.
pub proof fn law_replay_starts_blank_and_stops_at_errors(events: Seq<EventView>, event: EventView)
    ensures
        replayed(Seq::empty()) matches Ok(told) && told.tool_calls.len() == 0
            && told.code_cells.len() == 0 && told.payloads.len() == 0,
        replayed(events) is Err ==> replayed(events.push(event)) == replayed(events),
{
    assert(events.push(event).drop_last() =~= events);
}

/// That a thread or a turn starts leaves all that was told as it was.
pub proof fn law_turns_leave_what_was_told(
    events: Seq<EventView>,
    told: RolloutView,
    metadata: MetadataView,
    codex_turn_id: Seq<char>,
)
    requires
        replayed(events) == Ok::<RolloutView, ReplayError>(told),
    ensures
        replayed(events.push(EventView::ThreadStarted(metadata))) == Ok::<
            RolloutView,
            ReplayError,
        >(told),
        replayed(events.push(EventView::TurnStarted { codex_turn_id })) == Ok::<
            RolloutView,
            ReplayError,
        >(told),
{
    assert(events.push(EventView::ThreadStarted(metadata)).drop_last() =~= events);
    assert(events.push(EventView::TurnStarted { codex_turn_id }).drop_last() =~= events);
}

/// A cell that starts is told of behind all others, under the name of the call that started it,
/// and changes nothing else. One whose runtime id is taken makes no sense.
pub proof fn law_started_cells_are_told(
    events: Seq<EventView>,
    told: RolloutView,
    codex_turn_id: Seq<char>,
    runtime_cell_id: Seq<char>,
    model_visible_call_id: Seq<char>,
    source: Seq<char>,
)
    requires
        replayed(events) == Ok::<RolloutView, ReplayError>(told),
    ensures
        ({
            let later = replayed(
                events.push(
                    EventView::CodeCellStarted {
                        codex_turn_id,
                        runtime_cell_id,
                        model_visible_call_id,
                        source,
                    },
                ),
            );
            let taken = exists|i: int|
                0 <= i < told.code_cells.len() && (#[trigger] told.code_cells[i]).runtime_cell_id
                    == runtime_cell_id;
            &&& taken ==> later == Err::<RolloutView, ReplayError>(ReplayError::DuplicateCodeCell)
            &&& !taken ==> {
                &&& later matches Ok(rollout)
                &&& rollout.tool_calls == told.tool_calls
                &&& rollout.payloads == told.payloads
                &&& rollout.code_cells.len() == told.code_cells.len() + 1
                &&& forall|i: int|
                    0 <= i < told.code_cells.len() ==> #[trigger] rollout.code_cells[i]
                        == told.code_cells[i]
                &&& rollout.code_cells.last().code_cell_id == "code_cell:"@ + model_visible_call_id
                &&& rollout.code_cells.last().codex_turn_id == codex_turn_id
                &&& rollout.code_cells.last().runtime_cell_id == runtime_cell_id
                &&& rollout.code_cells.last().model_visible_call_id == model_visible_call_id
                &&& rollout.code_cells.last().source == source
            }
        }),
{
    let event = EventView::CodeCellStarted {
        codex_turn_id,
        runtime_cell_id,
        model_visible_call_id,
        source,
    };
    assert(events.push(event).drop_last() =~= events);
    lemma_found_cell(told.code_cells, runtime_cell_id);
}

/// A call that starts is told of behind all others, with all that was said of it and as running,
/// and its payload is kept behind all others; nothing else changes. The model's calls are the
/// model's under their own ids; a cell's calls are those of the cell with that runtime id, under
/// the runtime's id. A call whose id is taken, or whose cell never started, makes no sense.
pub proof fn law_started_calls_are_told(
    events: Seq<EventView>,
    told: RolloutView,
    call: DispatchView,
)
    requires
        replayed(events) == Ok::<RolloutView, ReplayError>(told),
    ensures
        ({
            let later = replayed(events.push(EventView::ToolCallStarted(call)));
            let taken = exists|i: int|
                0 <= i < told.tool_calls.len() && (#[trigger] told.tool_calls[i]).tool_call_id
                    == call.tool_call_id;
            let homeless = call.requester matches DispatchRequesterView::CodeCell {
                runtime_cell_id,
                ..
            } && forall|i: int|
                0 <= i < told.code_cells.len() ==> (#[trigger] told.code_cells[i]).runtime_cell_id
                    != runtime_cell_id;
            &&& taken ==> later == Err::<RolloutView, ReplayError>(ReplayError::DuplicateToolCall)
            &&& !taken && homeless ==> later == Err::<RolloutView, ReplayError>(
                ReplayError::UnknownCodeCell,
            )
            &&& !taken && !homeless ==> {
                &&& later matches Ok(rollout)
                &&& rollout.code_cells == told.code_cells
                &&& rollout.payloads.len() == told.payloads.len() + 1
                &&& forall|i: int|
                    0 <= i < told.payloads.len() ==> #[trigger] rollout.payloads[i]
                        == told.payloads[i]
                &&& rollout.payloads.last() == RawPayloadView::ToolInvocation(call.payload)
                &&& rollout.tool_calls.len() == told.tool_calls.len() + 1
                &&& forall|i: int|
                    0 <= i < told.tool_calls.len() ==> #[trigger] rollout.tool_calls[i]
                        == told.tool_calls[i]
                &&& started_call_told(told, call, rollout.tool_calls.last())
            }
        }),
{
    let event = EventView::ToolCallStarted(call);
    assert(events.push(event).drop_last() =~= events);
    if let DispatchRequesterView::CodeCell { runtime_cell_id, .. } = call.requester {
        lemma_found_cell(told.code_cells, runtime_cell_id);
    }
}

/// `as_told` is how a call that has just started is told of.
pub open spec fn started_call_told(
    told: RolloutView,
    call: DispatchView,
    as_told: ToolCallView,
) -> bool {
    &&& as_told.tool_call_id == call.tool_call_id
    &&& as_told.thread_id == call.thread_id
    &&& as_told.codex_turn_id == call.codex_turn_id
    &&& as_told.tool_name == call.tool_name
    &&& as_told.tool_namespace == call.tool_namespace
    &&& as_told.status is Running
    &&& as_told.raw_invocation_payload_id == Some(told.payloads.len())
    &&& as_told.raw_result_payload_id is None
    &&& match call.requester {
        DispatchRequesterView::Model { model_visible_call_id } => {
            &&& as_told.requester is Model
            &&& as_told.model_visible_call_id == Some(model_visible_call_id)
            &&& as_told.code_mode_runtime_tool_id is None
        },
        DispatchRequesterView::CodeCell { runtime_cell_id, runtime_tool_call_id } => {
            &&& as_told.model_visible_call_id is None
            &&& as_told.code_mode_runtime_tool_id == Some(runtime_tool_call_id)
            &&& as_told.requester matches RequesterView::CodeCell { code_cell_id }
            &&& exists|i: int|
                0 <= i < told.code_cells.len() && (#[trigger] told.code_cells[i]).runtime_cell_id
                    == runtime_cell_id && told.code_cells[i].code_cell_id == code_cell_id
        },
    }
}

/// A call that ends stands as it ended and leads to its result, which is kept behind all other
/// payloads. All else that was told of it, and of every other call and cell, stays as it was. A
/// call that never started cannot end.
pub proof fn law_ended_calls_are_told(
    events: Seq<EventView>,
    told: RolloutView,
    tool_call_id: Seq<char>,
    status: ExecutionStatus,
    result: ResultPayloadView,
)
    requires
        replayed(events) == Ok::<RolloutView, ReplayError>(told),
    ensures
        ({
            let later = replayed(
                events.push(EventView::ToolCallEnded { tool_call_id, status, result }),
            );
            let known = exists|i: int|
                0 <= i < told.tool_calls.len() && (#[trigger] told.tool_calls[i]).tool_call_id
                    == tool_call_id;
            &&& !known ==> later == Err::<RolloutView, ReplayError>(ReplayError::UnknownToolCall)
            &&& known ==> {
                &&& later matches Ok(rollout)
                &&& rollout.code_cells == told.code_cells
                &&& rollout.payloads.len() == told.payloads.len() + 1
                &&& forall|i: int|
                    0 <= i < told.payloads.len() ==> #[trigger] rollout.payloads[i]
                        == told.payloads[i]
                &&& rollout.payloads.last() == RawPayloadView::ToolResult(result)
                &&& rollout.tool_calls.len() == told.tool_calls.len()
                &&& forall|i: int|
                    0 <= i < told.tool_calls.len() ==> {
                        let call = #[trigger] rollout.tool_calls[i];
                        let was = told.tool_calls[i];
                        &&& same_call(was, call)
                        &&& was.tool_call_id == tool_call_id ==> call.status == status
                            && call.raw_result_payload_id == Some(told.payloads.len())
                        &&& was.tool_call_id != tool_call_id ==> call.status == was.status
                            && call.raw_result_payload_id == was.raw_result_payload_id
                    }
            }
        }),
{
    let event = EventView::ToolCallEnded { tool_call_id, status, result };
    assert(events.push(event).drop_last() =~= events);
}

/// Both tell of one call, which may have ended in between.
pub open spec fn same_call(was: ToolCallView, call: ToolCallView) -> bool {
    &&& call.tool_call_id == was.tool_call_id
    &&& call.thread_id == was.thread_id
    &&& call.codex_turn_id == was.codex_turn_id
    &&& call.tool_name == was.tool_name
    &&& call.tool_namespace == was.tool_namespace
    &&& call.model_visible_call_id == was.model_visible_call_id
    &&& call.code_mode_runtime_tool_id == was.code_mode_runtime_tool_id
    &&& call.requester == was.requester
    &&& call.raw_invocation_payload_id == was.raw_invocation_payload_id
}

/// `later` tells all that `told` does, in the same order.
pub open spec fn told_on(told: RolloutView, later: RolloutView) -> bool {
    &&& told.payloads.len() <= later.payloads.len()
    &&& forall|i: int|
        0 <= i < told.payloads.len() ==> #[trigger] later.payloads[i] == told.payloads[i]
    &&& told.code_cells.len() <= later.code_cells.len()
    &&& forall|i: int|
        0 <= i < told.code_cells.len() ==> #[trigger] later.code_cells[i] == told.code_cells[i]
    &&& told.tool_calls.len() <= later.tool_calls.len()
    &&& forall|i: int|
        0 <= i < told.tool_calls.len() ==> same_call(
            told.tool_calls[i],
            #[trigger] later.tool_calls[i],
        )
}

/// Replay never forgets: whatever else a trace goes on to tell, all payloads, cells and calls
/// told so far are still told, in the same order. If the longer trace makes sense, so did the
/// shorter one.
pub proof fn law_replay_never_forgets(events: Seq<EventView>, more: Seq<EventView>)
    requires
        replayed(events + more) is Ok,
    ensures
        replayed(events) is Ok,
        told_on(replayed(events)->Ok_0, replayed(events + more)->Ok_0),
    decreases more.len(),
{
    if more.len() == 0 {
        assert(events + more =~= events);
    } else {
        let all = events + more;
        assert(all.drop_last() =~= events + more.drop_last());
        law_replay_never_forgets(events, more.drop_last());
        let told = replayed(events)->Ok_0;
        let between = replayed(all.drop_last())->Ok_0;
        let later = replayed(all)->Ok_0;
        assert(told_on(between, later)) by {
            match all.last() {
                EventView::ToolCallEnded { tool_call_id, status, result } => {
                    assert(all =~= all.drop_last().push(all.last()));
                    law_ended_calls_are_told(all.drop_last(), between, tool_call_id, status, result);
                },
                _ => {},
            }
        }
        assert forall|i: int| 0 <= i < told.tool_calls.len() implies same_call(
            told.tool_calls[i],
            #[trigger] later.tool_calls[i],
        ) by {
            assert(same_call(told.tool_calls[i], between.tool_calls[i]));
            assert(same_call(between.tool_calls[i], later.tool_calls[i]));
        }
        assert forall|i: int| 0 <= i < told.payloads.len() implies #[trigger] later.payloads[i]
            == told.payloads[i] by {
            assert(between.payloads[i] == told.payloads[i]);
        }
        assert forall|i: int| 0 <= i < told.code_cells.len() implies #[trigger] later.code_cells[i]
            == told.code_cells[i] by {
            assert(between.code_cells[i] == told.code_cells[i]);
        }
    }
}

/// Every call that a trace says has started is told of, with the payload it carried.
pub proof fn law_every_traced_call_is_told(
    events: Seq<EventView>,
    more: Seq<EventView>,
    call: DispatchView,
    told: RolloutView,
)
    requires
        replayed(events.push(EventView::ToolCallStarted(call)) + more) == Ok::<
            RolloutView,
            ReplayError,
        >(told),
    ensures
        exists|i: int|
            0 <= i < told.tool_calls.len() && {
                let as_told = #[trigger] told.tool_calls[i];
                &&& as_told.tool_call_id == call.tool_call_id
                &&& as_told.thread_id == call.thread_id
                &&& as_told.codex_turn_id == call.codex_turn_id
                &&& as_told.tool_name == call.tool_name
                &&& as_told.tool_namespace == call.tool_namespace
                &&& as_told.raw_invocation_payload_id matches Some(payload)
                &&& payload < told.payloads.len()
                &&& told.payloads[payload as int] == RawPayloadView::ToolInvocation(call.payload)
            },
{
    let upto = events.push(EventView::ToolCallStarted(call));
    law_replay_never_forgets(upto, more);
    let then = replayed(upto)->Ok_0;
    assert(upto =~= events + seq![EventView::ToolCallStarted(call)]);
    law_replay_never_forgets(events, seq![EventView::ToolCallStarted(call)]);
    let before = replayed(events)->Ok_0;
    law_started_calls_are_told(events, before, call);
    let i = before.tool_calls.len() as int;
    assert(then.tool_calls[i] == then.tool_calls.last());
    assert(same_call(then.tool_calls[i], told.tool_calls[i]));
    let payload = before.payloads.len() as int;
    assert(told.payloads[payload] == then.payloads[payload]);
    assert(then.payloads[payload] == then.payloads.last());
}

/// A call of which a trace says last that it ended stands as it ended, and leads to that result.
pub proof fn law_every_traced_end_is_told(
    events: Seq<EventView>,
    more: Seq<EventView>,
    tool_call_id: Seq<char>,
    status: ExecutionStatus,
    result: ResultPayloadView,
    told: RolloutView,
)
    requires
        replayed(events.push(EventView::ToolCallEnded { tool_call_id, status, result }) + more)
            == Ok::<RolloutView, ReplayError>(told),
        forall|i: int|
            0 <= i < more.len() ==> !((#[trigger] more[i]) matches EventView::ToolCallEnded {
                tool_call_id: ended,
                ..
            } && ended == tool_call_id),
    ensures
        exists|i: int|
            0 <= i < told.tool_calls.len() && {
                let call = #[trigger] told.tool_calls[i];
                &&& call.tool_call_id == tool_call_id
                &&& call.status == status
                &&& call.raw_result_payload_id matches Some(payload)
                &&& payload < told.payloads.len()
                &&& told.payloads[payload as int] == RawPayloadView::ToolResult(result)
            },
    decreases more.len(),
{
    let ended = EventView::ToolCallEnded { tool_call_id, status, result };
    let upto = events.push(ended);
    if more.len() == 0 {
        assert(upto + more =~= upto);
        assert(upto =~= events + seq![ended]);
        law_replay_never_forgets(events, seq![ended]);
        let before = replayed(events)->Ok_0;
        law_ended_calls_are_told(events, before, tool_call_id, status, result);
        let i = choose|i: int|
            0 <= i < before.tool_calls.len() && (#[trigger] before.tool_calls[i]).tool_call_id
                == tool_call_id;
        assert(same_call(before.tool_calls[i], told.tool_calls[i]));
        assert(told.payloads[before.payloads.len() as int] == told.payloads.last());
    } else {
        let all = upto + more;
        let fewer = more.drop_last();
        assert(all.drop_last() =~= upto + fewer);
        assert(all =~= all.drop_last().push(more.last()));
        assert(all =~= all.drop_last() + seq![more.last()]);
        law_replay_never_forgets(all.drop_last(), seq![more.last()]);
        let between = replayed(all.drop_last())->Ok_0;
        assert forall|i: int| 0 <= i < fewer.len() implies !((
        #[trigger] fewer[i]) matches EventView::ToolCallEnded { tool_call_id: other, .. } && other
            == tool_call_id) by {
            assert(fewer[i] == more[i]);
        }
        law_every_traced_end_is_told(events, fewer, tool_call_id, status, result, between);
        let i = choose|i: int|
            0 <= i < between.tool_calls.len() && {
                let call = #[trigger] between.tool_calls[i];
                &&& call.tool_call_id == tool_call_id
                &&& call.status == status
                &&& call.raw_result_payload_id matches Some(payload)
                &&& payload < between.payloads.len()
                &&& between.payloads[payload as int] == RawPayloadView::ToolResult(result)
            };
        let payload = between.tool_calls[i].raw_result_payload_id->Some_0 as int;
        assert(told.payloads[payload] == between.payloads[payload]);
        assert(same_call(between.tool_calls[i], told.tool_calls[i]));
        match more.last() {
            EventView::ToolCallEnded { tool_call_id: other, status: how, result: what } => {
                assert(more[more.len() - 1] == more.last());
                law_ended_calls_are_told(all.drop_last(), between, other, how, what);
            },
            EventView::ToolCallStarted(call) => {
                law_started_calls_are_told(all.drop_last(), between, call);
            },
            _ => {},
        }
        assert(told.tool_calls[i].status == status);
        assert(told.tool_calls[i].raw_result_payload_id
            == between.tool_calls[i].raw_result_payload_id);
    }
}

/// Every cell that a trace says has started is told of, under the name of the call that started
/// it.
pub proof fn law_every_traced_cell_is_told(
    events: Seq<EventView>,
    more: Seq<EventView>,
    codex_turn_id: Seq<char>,
    runtime_cell_id: Seq<char>,
    model_visible_call_id: Seq<char>,
    source: Seq<char>,
    told: RolloutView,
)
    requires
        replayed(
            events.push(
                EventView::CodeCellStarted {
                    codex_turn_id,
                    runtime_cell_id,
                    model_visible_call_id,
                    source,
                },
            ) + more,
        ) == Ok::<RolloutView, ReplayError>(told),
    ensures
        exists|i: int|
            0 <= i < told.code_cells.len() && {
                let cell = #[trigger] told.code_cells[i];
                &&& cell.code_cell_id == "code_cell:"@ + model_visible_call_id
                &&& cell.codex_turn_id == codex_turn_id
                &&& cell.runtime_cell_id == runtime_cell_id
                &&& cell.model_visible_call_id == model_visible_call_id
                &&& cell.source == source
            },
{
    let started = EventView::CodeCellStarted {
        codex_turn_id,
        runtime_cell_id,
        model_visible_call_id,
        source,
    };
    let upto = events.push(started);
    law_replay_never_forgets(upto, more);
    assert(upto =~= events + seq![started]);
    law_replay_never_forgets(events, seq![started]);
    let before = replayed(events)->Ok_0;
    let then = replayed(upto)->Ok_0;
    law_started_cells_are_told(
        events,
        before,
        codex_turn_id,
        runtime_cell_id,
        model_visible_call_id,
        source,
    );
    let i = before.code_cells.len() as int;
    assert(then.code_cells[i] == then.code_cells.last());
    assert(told.code_cells[i] == then.code_cells[i]);
}

/// How many of `events` are starts of calls.
pub open spec fn calls_started(events: Seq<EventView>) -> nat
    decreases events.len(),
{
    if events.len() == 0 {
        0
    } else {
        calls_started(events.drop_last()) + if events.last() is ToolCallStarted {
            1nat
        } else {
            0nat
        }
    }
}

/// How many of `events` are starts of cells.
pub open spec fn cells_started(events: Seq<EventView>) -> nat
    decreases events.len(),
{
    if events.len() == 0 {
        0
    } else {
        cells_started(events.drop_last()) + if events.last() is CodeCellStarted {
            1nat
        } else {
            0nat
        }
    }
}

/// As many calls and cells are told of as have started: nothing is made up.
pub proof fn law_replay_makes_nothing_up(events: Seq<EventView>)
    requires
        replayed(events) is Ok,
    ensures
        replayed(events)->Ok_0.tool_calls.len() == calls_started(events),
        replayed(events)->Ok_0.code_cells.len() == cells_started(events),
    decreases events.len(),
{
    if events.len() > 0 {
        law_replay_makes_nothing_up(events.drop_last());
    }
}

/// What is read back of a trace is what its events tell, text for text: as many calls, cells and
/// payloads, in the same order, or the first thing that makes no sense.
pub proof fn law_read_back_rollouts_are_what_is_told(
    trace: ThreadTrace,
    read: Result<ReplayedRollout, ReplayError>,
)
    requires
        call_ensures(replay_bundle, (&trace,), read),
    ensures
        match replayed(Seq::new(trace.events@.len(), |i: int| trace.events@[i]@)) {
            Err(error) => read == Err::<ReplayedRollout, ReplayError>(error),
            Ok(told) => {
                &&& read matches Ok(rollout)
                &&& rollout.tool_calls@.len() == told.tool_calls.len()
                &&& rollout.code_cells@.len() == told.code_cells.len()
                &&& rollout.payloads@.len() == told.payloads.len()
                &&& forall|i: int|
                    0 <= i < told.tool_calls.len() ==> call_read(
                        #[trigger] rollout.tool_calls@[i],
                        told.tool_calls[i],
                    )
                &&& forall|i: int|
                    0 <= i < told.code_cells.len() ==> cell_read(
                        #[trigger] rollout.code_cells@[i],
                        told.code_cells[i],
                    )
                &&& forall|i: int|
                    0 <= i < told.payloads.len() ==> match #[trigger] rollout.payloads@[i] {
                        RawPayload::ToolInvocation(payload) => told.payloads[i]
                            == RawPayloadView::ToolInvocation(payload@),
                        RawPayload::ToolResult(result) => told.payloads[i]
                            == RawPayloadView::ToolResult(result@),
                    }
            },
        },
{
    assert(Seq::new(trace.events@.len(), |i: int| trace.events@[i]@) =~= event_views(
        trace.events@,
    ));
    if let Ok(rollout) = read {
        let told = rollout@;
        assert forall|i: int| 0 <= i < told.tool_calls.len() implies call_read(
            #[trigger] rollout.tool_calls@[i],
            told.tool_calls[i],
        ) by {
            assert(told.tool_calls[i] == rollout.tool_calls@[i]@);
        }
        assert forall|i: int| 0 <= i < told.code_cells.len() implies cell_read(
            #[trigger] rollout.code_cells@[i],
            told.code_cells[i],
        ) by {
            assert(told.code_cells[i] == rollout.code_cells@[i]@);
        }
        assert forall|i: int| 0 <= i < told.payloads.len() implies match #[trigger] rollout.payloads@[i] {
            RawPayload::ToolInvocation(payload) => told.payloads[i]
                == RawPayloadView::ToolInvocation(payload@),
            RawPayload::ToolResult(result) => told.payloads[i] == RawPayloadView::ToolResult(
                result@,
            ),
        } by {
            assert(told.payloads[i] == rollout.payloads@[i]@);
        }
    }
}

/// `call` is read back as it was told.
pub open spec fn call_read(call: ReplayedToolCall, told: ToolCallView) -> bool {
    &&& call.tool_call_id@ == told.tool_call_id
    &&& call.thread_id@ == told.thread_id
    &&& call.codex_turn_id@ == told.codex_turn_id
    &&& call.tool_name@ == told.tool_name
    &&& call.tool_namespace is None <==> told.tool_namespace is None
    &&& call.tool_namespace matches Some(text) ==> told.tool_namespace == Some(text@)
    &&& call.model_visible_call_id is None <==> told.model_visible_call_id is None
    &&& call.model_visible_call_id matches Some(text) ==> told.model_visible_call_id == Some(text@)
    &&& call.code_mode_runtime_tool_id is None <==> told.code_mode_runtime_tool_id is None
    &&& call.code_mode_runtime_tool_id matches Some(text) ==> told.code_mode_runtime_tool_id
        == Some(text@)
    &&& match call.requester {
        ToolCallRequester::Model => told.requester is Model,
        ToolCallRequester::CodeCell { code_cell_id } => told.requester == (
        RequesterView::CodeCell { code_cell_id: code_cell_id@ }),
    }
    &&& call.status == told.status
    &&& call.raw_invocation_payload_id is None <==> told.raw_invocation_payload_id is None
    &&& call.raw_invocation_payload_id matches Some(id) ==> told.raw_invocation_payload_id == Some(
        id as nat,
    )
    &&& call.raw_result_payload_id is None <==> told.raw_result_payload_id is None
    &&& call.raw_result_payload_id matches Some(id) ==> told.raw_result_payload_id == Some(
        id as nat,
    )
}

/// `cell` is read back as it was told.
pub open spec fn cell_read(cell: ReplayedCodeCell, told: CodeCellView) -> bool {
    &&& cell.code_cell_id@ == told.code_cell_id
    &&& cell.codex_turn_id@ == told.codex_turn_id
    &&& cell.runtime_cell_id@ == told.runtime_cell_id
    &&& cell.model_visible_call_id@ == told.model_visible_call_id
    &&& cell.source@ == told.source
}

} // verus!
