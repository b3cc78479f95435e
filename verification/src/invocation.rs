//! One call of a tool: where it comes from, what it carries and what it runs in.

use crate::cell::text_opt;
use crate::context::{Session, StepContext, TurnContext, TurnDiffTracker};
use crate::outside::{locked_at_first, new_lock};
use crate::tool::{PayloadView, ToolName, ToolNamespace, ToolPayload};
use std::sync::Arc;
use tokio::sync::Mutex;
use tokio_util::sync::CancellationToken;
use vstd::prelude::*;

verus! {

/// Who calls.
#[derive(Debug)]
pub enum ToolCallSource {
    /// The model itself.
    Direct,
    /// Code that runs in a cell.
    CodeMode { cell_id: String, runtime_tool_call_id: String },
}

/// One call of a tool.
#[derive(Debug)]
pub struct ToolInvocation {
    /// The session that the call belongs to.
    pub session: Arc<Session>,
    pub step_context: StepContext,
    pub turn: Arc<TurnContext>,
    pub cancellation_token: CancellationToken,
    pub tracker: Arc<Mutex<TurnDiffTracker>>,
    pub call_id: String,
    pub tool_name: ToolName,
    pub source: ToolCallSource,
    pub payload: ToolPayload,
}

/// A call of the function `tool_name` with `arguments`, in a step of its own.
pub fn test_invocation(
    session: Arc<Session>,
    turn: Arc<TurnContext>,
    call_id: &str,
    tool_name: &str,
    source: ToolCallSource,
    arguments: &str,
) -> (invocation: ToolInvocation)
    ensures
        invocation.session == session,
        invocation.step_context.turn == turn,
        invocation.turn == turn,
        call_ensures(CancellationToken::new, (), invocation.cancellation_token),
        locked_at_first(*invocation.tracker).changed_files@ == Seq::<String>::empty(),
        invocation.call_id@ == call_id@,
        invocation.tool_name.name@ == tool_name@,
        invocation.tool_name.namespace is Unspecified,
        invocation.source == source,
        invocation.payload matches ToolPayload::Function { arguments: carried } && carried@
            == arguments@,
{
    test_invocation_with_payload(
        session,
        turn,
        call_id,
        ToolName::plain(tool_name),
        source,
        ToolPayload::Function { arguments: arguments.to_string() },
    )
}

/// A call of `tool_name` with `payload`, in a step of its own, that has changed no file. Its token
/// is a new one; whether that has been cancelled since is not stated, as it may be at any time.
pub fn test_invocation_with_payload(
    session: Arc<Session>,
    turn: Arc<TurnContext>,
    call_id: &str,
    tool_name: ToolName,
    source: ToolCallSource,
    payload: ToolPayload,
) -> (invocation: ToolInvocation)
    ensures
        invocation.session == session,
        invocation.step_context.turn == turn,
        invocation.turn == turn,
        call_ensures(CancellationToken::new, (), invocation.cancellation_token),
        locked_at_first(*invocation.tracker).changed_files@ == Seq::<String>::empty(),
        invocation.call_id@ == call_id@,
        invocation.tool_name == tool_name,
        invocation.source == source,
        invocation.payload == payload,
{
    let step_context = StepContext::for_test(Arc::clone(&turn));
    ToolInvocation {
        session,
        step_context,
        turn,
        cancellation_token: CancellationToken::new(),
        tracker: Arc::new(new_lock(TurnDiffTracker::new())),
        call_id: call_id.to_string(),
        tool_name,
        source,
        payload,
    }
}

/// Who asked for a traced call.
#[derive(Debug)]
pub enum ToolDispatchRequester {
    Model { model_visible_call_id: String },
    CodeCell { runtime_cell_id: String, runtime_tool_call_id: String },
}

/// A `ToolDispatchRequester` with its strings read as texts.
pub enum DispatchRequesterView {
    Model { model_visible_call_id: Seq<char> },
    CodeCell { runtime_cell_id: Seq<char>, runtime_tool_call_id: Seq<char> },
}

impl View for ToolDispatchRequester {
    type V = DispatchRequesterView;

    open spec fn view(&self) -> DispatchRequesterView {
        match *self {
            ToolDispatchRequester::Model { model_visible_call_id } => {
                DispatchRequesterView::Model { model_visible_call_id: model_visible_call_id@ }
            },
            ToolDispatchRequester::CodeCell { runtime_cell_id, runtime_tool_call_id } => {
                DispatchRequesterView::CodeCell {
                    runtime_cell_id: runtime_cell_id@,
                    runtime_tool_call_id: runtime_tool_call_id@,
                }
            },
        }
    }
}

/// What the trace keeps of a call.
#[derive(Debug)]
pub struct ToolDispatchInvocation {
    pub thread_id: String,
    pub codex_turn_id: String,
    pub tool_call_id: String,
    pub tool_name: String,
    pub tool_namespace: Option<String>,
    pub requester: ToolDispatchRequester,
    pub payload: ToolPayload,
}

/// A `ToolDispatchInvocation` with its strings read as texts.
pub struct DispatchView {
    pub thread_id: Seq<char>,
    pub codex_turn_id: Seq<char>,
    pub tool_call_id: Seq<char>,
    pub tool_name: Seq<char>,
    pub tool_namespace: Option<Seq<char>>,
    pub requester: DispatchRequesterView,
    pub payload: PayloadView,
}

impl View for ToolDispatchInvocation {
    type V = DispatchView;

    open spec fn view(&self) -> DispatchView {
        DispatchView {
            thread_id: self.thread_id@,
            codex_turn_id: self.codex_turn_id@,
            tool_call_id: self.tool_call_id@,
            tool_name: self.tool_name@,
            tool_namespace: text_opt(self.tool_namespace),
            requester: self.requester@,
            payload: self.payload@,
        }
    }
}

/// What the trace keeps of `invocation`. A direct call is known to the model by its call id, a
/// call from a cell is known to the cell by the runtime's own id.
pub open spec fn traced_invocation(invocation: ToolInvocation) -> ToolDispatchInvocation {
    ToolDispatchInvocation {
        thread_id: invocation.session.thread_id,
        codex_turn_id: invocation.turn.sub_id,
        tool_call_id: invocation.call_id,
        tool_name: invocation.tool_name.name,
        tool_namespace: invocation.tool_name.namespace.named(),
        requester: match invocation.source {
            ToolCallSource::Direct => ToolDispatchRequester::Model {
                model_visible_call_id: invocation.call_id,
            },
            ToolCallSource::CodeMode { cell_id, runtime_tool_call_id } => {
                ToolDispatchRequester::CodeCell { runtime_cell_id: cell_id, runtime_tool_call_id }
            },
        },
        payload: invocation.payload,
    }
}

/// What the trace keeps of a call. Every call is traced.
pub fn tool_dispatch_invocation(invocation: &ToolInvocation) -> (traced: Option<
    ToolDispatchInvocation,
>)
    ensures
        traced == Some(traced_invocation(*invocation)),
{
    let requester = match &invocation.source {
        ToolCallSource::Direct => ToolDispatchRequester::Model {
            model_visible_call_id: invocation.call_id.clone(),
        },
        ToolCallSource::CodeMode { cell_id, runtime_tool_call_id } => {
            ToolDispatchRequester::CodeCell {
                runtime_cell_id: cell_id.clone(),
                runtime_tool_call_id: runtime_tool_call_id.clone(),
            }
        },
    };
    Some(
        ToolDispatchInvocation {
            thread_id: invocation.session.thread_id.clone(),
            codex_turn_id: invocation.turn.sub_id.clone(),
            tool_call_id: invocation.call_id.clone(),
            tool_name: invocation.tool_name.name.clone(),
            tool_namespace: invocation.tool_name.namespace.name(),
            requester,
            payload: invocation.payload.clone(),
        },
    )
}

/// A call of a function carries the caller's session and turn, its own id, name, source and
/// arguments, a step of that turn, a token and a tracker that are new.
pub proof fn law_function_calls_carry_what_they_are_given(
    session: Arc<Session>,
    turn: Arc<TurnContext>,
    call_id: &str,
    tool_name: &str,
    source: ToolCallSource,
    arguments: &str,
    invocation: ToolInvocation,
)
    requires
        call_ensures(
            test_invocation,
            (session, turn, call_id, tool_name, source, arguments),
            invocation,
        ),
    ensures
        invocation.session == session,
        invocation.turn == turn,
        invocation.step_context.turn == turn,
        call_ensures(CancellationToken::new, (), invocation.cancellation_token),
        locked_at_first(*invocation.tracker).changed_files@.len() == 0,
        invocation.call_id@ == call_id@,
        invocation.tool_name.name@ == tool_name@,
        invocation.tool_name.namespace is Unspecified,
        invocation.source == source,
        invocation.payload matches ToolPayload::Function { arguments: carried } && carried@
            == arguments@,
{
}

/// A call carries its payload as it is, whatever its kind.
pub proof fn law_calls_carry_what_they_are_given(
    session: Arc<Session>,
    turn: Arc<TurnContext>,
    call_id: &str,
    tool_name: ToolName,
    source: ToolCallSource,
    payload: ToolPayload,
    invocation: ToolInvocation,
)
    requires
        call_ensures(
            test_invocation_with_payload,
            (session, turn, call_id, tool_name, source, payload),
            invocation,
        ),
    ensures
        invocation.session == session,
        invocation.turn == turn,
        invocation.step_context.turn == turn,
        call_ensures(CancellationToken::new, (), invocation.cancellation_token),
        locked_at_first(*invocation.tracker).changed_files@.len() == 0,
        invocation.call_id@ == call_id@,
        invocation.tool_name == tool_name,
        invocation.source == source,
        invocation.payload == payload,
{
}

/// `traced` is what a trace keeps of `invocation`: whose call it is, in which thread and turn, of
/// which tool and with which payload. A direct call is the model's, under the call's own id; a
/// call from a cell is that cell's, under the runtime's id. Only a named namespace is kept.
pub open spec fn kept_of(invocation: ToolInvocation, traced: ToolDispatchInvocation) -> bool {
    &&& traced.thread_id@ == invocation.session.thread_id@
    &&& traced.codex_turn_id@ == invocation.turn.sub_id@
    &&& traced.tool_call_id@ == invocation.call_id@
    &&& traced.tool_name@ == invocation.tool_name.name@
    &&& match invocation.tool_name.namespace {
        ToolNamespace::Named(name) => traced.tool_namespace matches Some(kept) && kept@ == name@,
        _ => traced.tool_namespace is None,
    }
    &&& match invocation.source {
        ToolCallSource::Direct => traced.requester matches ToolDispatchRequester::Model {
            model_visible_call_id,
        } && model_visible_call_id@ == invocation.call_id@,
        ToolCallSource::CodeMode { cell_id, runtime_tool_call_id } => {
            traced.requester matches ToolDispatchRequester::CodeCell {
                runtime_cell_id,
                runtime_tool_call_id: runtime_id,
            } && runtime_cell_id@ == cell_id@ && runtime_id@ == runtime_tool_call_id@
        },
    }
    &&& match invocation.payload {
        ToolPayload::Function { arguments } => traced.payload matches ToolPayload::Function {
            arguments: kept,
        } && kept@ == arguments@,
        ToolPayload::Custom { input } => traced.payload matches ToolPayload::Custom { input: kept }
            && kept@ == input@,
    }
}

/// Every call is traced, and nothing of it is lost.
pub proof fn law_every_call_is_traced(
    invocation: ToolInvocation,
    traced: Option<ToolDispatchInvocation>,
)
    requires
        call_ensures(tool_dispatch_invocation, (&invocation,), traced),
    ensures
        traced is Some,
        kept_of(invocation, traced->Some_0),
{
}

/// A step belongs to the turn that it is made for.
pub proof fn law_steps_belong_to_their_turn(turn: Arc<TurnContext>, step: StepContext)
    requires
        call_ensures(StepContext::for_test, (turn,), step),
    ensures
        step.turn == turn,
{
}

/// The view of a traced call keeps all of it.
pub proof fn law_views_keep_traced_calls(traced: ToolDispatchInvocation)
    ensures
        traced@.thread_id == traced.thread_id@,
        traced@.codex_turn_id == traced.codex_turn_id@,
        traced@.tool_call_id == traced.tool_call_id@,
        traced@.tool_name == traced.tool_name@,
        traced.tool_namespace is None <==> traced@.tool_namespace is None,
        traced.tool_namespace matches Some(name) ==> traced@.tool_namespace == Some(name@),
        traced.requester matches ToolDispatchRequester::Model { model_visible_call_id }
            ==> traced@.requester == (DispatchRequesterView::Model {
            model_visible_call_id: model_visible_call_id@,
        }),
        traced.requester matches ToolDispatchRequester::CodeCell {
            runtime_cell_id,
            runtime_tool_call_id,
        } ==> traced@.requester == (DispatchRequesterView::CodeCell {
            runtime_cell_id: runtime_cell_id@,
            runtime_tool_call_id: runtime_tool_call_id@,
        }),
        traced@.payload == traced.payload@,
{
}

} // verus!
