//! Dispatching a call to the tool that it names, and tracing it from start to end.

use crate::arguments::{law_named_cells_are_read, read_arguments};
use crate::cell::OutcomeView;
use crate::code_mode::CodeModeService;
use crate::context::SessionServices;
use crate::handler::{
    lemma_wait_handled, says_ok, wait_called, wait_handled, CodeModeWaitHandler, ToolHandler,
};
use crate::invocation::{
    kept_of, tool_dispatch_invocation, traced_invocation, ToolCallSource, ToolInvocation,
};
use crate::json::string_text;
use crate::runtime::CodeModeSession;
use crate::tool::{
    FunctionCallError, ToolName, ToolNameView, ToolNamespace, ToolPayload, ToolResult,
};
use crate::trace::{ExecutionStatus, ThreadTrace, ToolResultPayload, TraceEvent};
use vstd::prelude::*;

verus! {

/// The tools that can be called. Where two share a name, the first is meant.
#[derive(Debug)]
pub struct ToolRegistry {
    pub handlers: Vec<ToolHandler>,
}

/// The first of `handlers` that is called by `name`.
pub open spec fn lookup(handlers: Seq<ToolHandler>, name: ToolNameView) -> Option<ToolHandler>
    decreases handlers.len(),
{
    if handlers.len() == 0 {
        None
    } else {
        match lookup(handlers.drop_last(), name) {
            Some(handler) => Some(handler),
            None => if handlers.last().name() == name {
                Some(handlers.last())
            } else {
                None
            },
        }
    }
}

proof fn lemma_lookup_in_prefix(handlers: Seq<ToolHandler>, name: ToolNameView, upto: int)
    requires
        0 <= upto <= handlers.len(),
        lookup(handlers.take(upto), name) is Some,
    ensures
        lookup(handlers, name) == lookup(handlers.take(upto), name),
    decreases handlers.len(),
{
    if upto == handlers.len() {
        assert(handlers.take(upto) =~= handlers);
    } else {
        assert(handlers.drop_last().take(upto) =~= handlers.take(upto));
        lemma_lookup_in_prefix(handlers.drop_last(), name, upto);
    }
}

/// What is said of a call that names no tool.
pub open spec fn unsupported_text(invocation: ToolInvocation) -> Seq<char> {
    match invocation.payload {
        ToolPayload::Custom { .. } => "unsupported custom tool call: "@
            + invocation.tool_name.name@,
        ToolPayload::Function { .. } => "unsupported call: "@ + invocation.tool_name.name@,
    }
}

/// What is said of a call whose payload its tool cannot take.
pub open spec fn incompatible_text(invocation: ToolInvocation) -> Seq<char> {
    "tool "@ + invocation.tool_name.name@ + " invoked with incompatible payload"@
}

/// A call whose tool is `handler` has taken the service from `before` to `after` and come to
/// `result`.
pub open spec fn dispatched<S: CodeModeSession>(
    handler: Option<ToolHandler>,
    before: CodeModeService<S>,
    after: CodeModeService<S>,
    invocation: ToolInvocation,
    result: ToolResult,
) -> bool {
    match (handler, invocation.payload) {
        (None, _) => {
            &&& after == before
            &&& result matches Err(FunctionCallError::RespondToModel(message))
            &&& message@ == unsupported_text(invocation)
        },
        (Some(_), ToolPayload::Custom { .. }) => {
            &&& after == before
            &&& result matches Err(FunctionCallError::Fatal(message))
            &&& message@ == incompatible_text(invocation)
        },
        (Some(ToolHandler::Test(_)), ToolPayload::Function { .. }) => {
            &&& after == before
            &&& says_ok(result)
        },
        (Some(ToolHandler::CodeModeWait(_)), ToolPayload::Function { arguments }) => wait_called(
            before,
            after,
            arguments@,
            result,
        ),
    }
}

/// How a call that came to `result` stands.
pub open spec fn status_of(result: ToolResult) -> ExecutionStatus {
    match result {
        Ok(output) => if output.success == Some(false) {
            ExecutionStatus::Failed
        } else {
            ExecutionStatus::Completed
        },
        Err(_) => ExecutionStatus::Failed,
    }
}

/// What the trace keeps of `result`: what the model is shown of a direct call, what the code in
/// the cell is given otherwise, and why the call failed if it did.
pub open spec fn result_payload(
    invocation: ToolInvocation,
    result: ToolResult,
) -> ToolResultPayload {
    match result {
        Ok(output) => match invocation.source {
            ToolCallSource::Direct => ToolResultPayload::DirectResponse {
                call_id: invocation.call_id,
                text: output.text,
                success: output.success,
            },
            ToolCallSource::CodeMode { .. } => ToolResultPayload::CodeModeResponse {
                value: output.text,
            },
        },
        Err(FunctionCallError::RespondToModel(message)) => ToolResultPayload::Error { message },
        Err(FunctionCallError::Fatal(message)) => ToolResultPayload::Error { message },
    }
}

/// What is written down when a call starts.
pub open spec fn started_event(invocation: ToolInvocation) -> TraceEvent {
    TraceEvent::ToolCallStarted(traced_invocation(invocation))
}

/// What is written down when a call ends.
pub open spec fn ended_event(invocation: ToolInvocation, result: ToolResult) -> TraceEvent {
    TraceEvent::ToolCallEnded {
        tool_call_id: invocation.call_id,
        status: status_of(result),
        result: result_payload(invocation, result),
    }
}

/// `after` is `before`, with `events` written down if it is a trace.
pub open spec fn written(
    before: Option<ThreadTrace>,
    after: Option<ThreadTrace>,
    events: Seq<TraceEvent>,
) -> bool {
    match before {
        Some(trace) => after matches Some(longer) && longer.bundle_dir == trace.bundle_dir
            && longer.events@ == trace.events@ + events,
        None => after is None,
    }
}

fn record(trace: &mut Option<ThreadTrace>, event: TraceEvent)
    ensures
        written(*old(trace), *final(trace), seq![event]),
{
    match trace.take() {
        Some(mut kept) => {
            let ghost before = kept.events@;
            kept.events.push(event);
            assert(kept.events@ =~= before + seq![event]);
            *trace = Some(kept);
        },
        None => {},
    }
}

fn record_result(trace: &mut Option<ThreadTrace>, invocation: &ToolInvocation, result: &ToolResult)
    ensures
        written(*old(trace), *final(trace), seq![ended_event(*invocation, *result)]),
{
    let status = match result {
        Ok(output) => match output.success {
            Some(false) => ExecutionStatus::Failed,
            _ => ExecutionStatus::Completed,
        },
        Err(_) => ExecutionStatus::Failed,
    };
    let payload = match result {
        Ok(output) => match &invocation.source {
            ToolCallSource::Direct => ToolResultPayload::DirectResponse {
                call_id: invocation.call_id.clone(),
                text: output.text.clone(),
                success: output.success,
            },
            ToolCallSource::CodeMode { .. } => ToolResultPayload::CodeModeResponse {
                value: output.text.clone(),
            },
        },
        Err(FunctionCallError::RespondToModel(message)) => ToolResultPayload::Error {
            message: message.clone(),
        },
        Err(FunctionCallError::Fatal(message)) => ToolResultPayload::Error {
            message: message.clone(),
        },
    };
    record(
        trace,
        TraceEvent::ToolCallEnded {
            tool_call_id: invocation.call_id.clone(),
            status,
            result: payload,
        },
    );
}

impl ToolRegistry {
    /// No tool can be called.
    pub fn empty_for_test() -> (registry: Self)
        ensures
            registry.handlers@ == Seq::<ToolHandler>::empty(),
    {
        ToolRegistry { handlers: Vec::new() }
    }

    /// Only `handler` can be called.
    pub fn with_handler_for_test(handler: ToolHandler) -> (registry: Self)
        ensures
            registry.handlers@ == seq![handler],
    {
        let mut handlers: Vec<ToolHandler> = Vec::new();
        handlers.push(handler);
        ToolRegistry { handlers }
    }

    /// The tool that is called by `name`.
    pub fn handler(&self, name: &ToolName) -> (found: Option<&ToolHandler>)
        ensures
            match found {
                Some(handler) => lookup(self.handlers@, name@) == Some(*handler),
                None => lookup(self.handlers@, name@) is None,
            },
    {
        let mut i: usize = 0;
        while i < self.handlers.len()
            invariant
                i <= self.handlers.len(),
                lookup(self.handlers@.take(i as int), name@) is None,
            decreases self.handlers.len() - i,
        {
            assert(self.handlers@.take(i + 1).drop_last() =~= self.handlers@.take(i as int));
            if self.handlers[i].tool_name().same_tool(name) {
                proof {
                    lemma_lookup_in_prefix(self.handlers@, name@, i + 1);
                }
                return Some(&self.handlers[i]);
            }
            i += 1;
        }
        assert(self.handlers@.take(i as int) =~= self.handlers@);
        None
    }

    /// Dispatches a call: a name without a tool is the model's mistake, a payload that the tool
    /// cannot take is fatal, and either way the trace has both the call and how it ended.
    pub fn dispatch_any_with_terminal_outcome<S: CodeModeSession>(
        &self,
        services: &mut SessionServices<S>,
        invocation: &ToolInvocation,
    ) -> (result: ToolResult)
        requires
            old(services).code_mode_service.wf(),
        ensures
            final(services).code_mode_service.wf(),
            dispatched(
                lookup(self.handlers@, invocation.tool_name@),
                old(services).code_mode_service,
                final(services).code_mode_service,
                *invocation,
                result,
            ),
            written(
                old(services).rollout_thread_trace,
                final(services).rollout_thread_trace,
                seq![started_event(*invocation), ended_event(*invocation, result)],
            ),
    {
        let ghost before = services.rollout_thread_trace;
        if let Some(call) = tool_dispatch_invocation(invocation) {
            record(&mut services.rollout_thread_trace, TraceEvent::ToolCallStarted(call));
        }
        let result: ToolResult = match self.handler(&invocation.tool_name) {
            None => {
                let mut message = match &invocation.payload {
                    ToolPayload::Custom { .. } => "unsupported custom tool call: ".to_string(),
                    ToolPayload::Function { .. } => "unsupported call: ".to_string(),
                };
                message.append(invocation.tool_name.name.as_str());
                Err(FunctionCallError::RespondToModel(message))
            },
            Some(handler) => match &invocation.payload {
                ToolPayload::Custom { .. } => {
                    let mut message = "tool ".to_string();
                    message.append(invocation.tool_name.name.as_str());
                    message.append(" invoked with incompatible payload");
                    Err(FunctionCallError::Fatal(message))
                },
                ToolPayload::Function { arguments } => match handler {
                    ToolHandler::Test(handler) => handler.handle(invocation),
                    ToolHandler::CodeModeWait(_) => CodeModeWaitHandler::call(
                        &mut services.code_mode_service,
                        arguments.as_str(),
                    ),
                },
            },
        };
        record_result(&mut services.rollout_thread_trace, invocation, &result);
        proof {
            let ended = ended_event(*invocation, result);
            if let Some(trace) = before {
                assert(trace.events@ + seq![started_event(*invocation)] + seq![ended]
                    =~= trace.events@ + seq![started_event(*invocation), ended]);
            }
        }
        result
    }
}

/// A registry with one tool finds it by its name and finds nothing else; an empty one finds
/// nothing.
pub proof fn law_single_handler_is_found_by_name(handler: ToolHandler, name: ToolNameView)
    ensures
        lookup(seq![handler], name) == if handler.name() == name {
            Some(handler)
        } else {
            None
        },
        lookup(Seq::empty(), name) is None,
{
    assert(seq![handler].drop_last() =~= Seq::empty());
    assert(lookup(Seq::empty(), name) is None);
}

/// A call that finds no tool is answered to the model, one whose payload the tool cannot take is
/// fatal, no cell is touched, and both are traced as failed with the reason kept.
pub proof fn law_refused_calls_fail<S: CodeModeSession>(
    handler: Option<ToolHandler>,
    before: CodeModeService<S>,
    after: CodeModeService<S>,
    invocation: ToolInvocation,
    result: ToolResult,
)
    requires
        dispatched(handler, before, after, invocation, result),
        handler is None || !(invocation.payload is Function),
    ensures
        handler is None ==> result matches Err(FunctionCallError::RespondToModel(_)),
        handler is Some ==> result matches Err(FunctionCallError::Fatal(_)),
        status_of(result) == ExecutionStatus::Failed,
        result_payload(invocation, result) is Error,
        after == before,
{
}

/// An empty registry has no tools, and one made for a tool has just that one.
pub proof fn law_registries_hold_what_they_are_made_of(
    empty: ToolRegistry,
    handler: ToolHandler,
    single: ToolRegistry,
)
    requires
        call_ensures(ToolRegistry::empty_for_test, (), empty),
        call_ensures(ToolRegistry::with_handler_for_test, (handler,), single),
    ensures
        empty.handlers@.len() == 0,
        single.handlers@.len() == 1,
        single.handlers@[0] == handler,
{
}

/// Whether `handler` is called by `name`: the names are the same, and so are the namespaces,
/// where one without a name is as good as another. The wait tool is called "wait".
pub open spec fn is_called(handler: ToolHandler, name: ToolName) -> bool {
    match handler {
        ToolHandler::Test(tool) => tool.tool_name.name@ == name.name@ && match (
            tool.tool_name.namespace,
            name.namespace,
        ) {
            (ToolNamespace::Named(mine), ToolNamespace::Named(theirs)) => mine@ == theirs@,
            (ToolNamespace::Named(_), _) => false,
            (_, ToolNamespace::Named(_)) => false,
            _ => true,
        },
        ToolHandler::CodeModeWait(_) => name.name@ == "wait"@ && !(name.namespace is Named),
    }
}

/// `at` is the first of `handlers` that is called by `name`.
pub open spec fn first_called(handlers: Seq<ToolHandler>, name: ToolName, at: int) -> bool {
    &&& 0 <= at < handlers.len()
    &&& is_called(handlers[at], name)
    &&& forall|i: int| 0 <= i < at ==> !is_called(#[trigger] handlers[i], name)
}

proof fn lemma_lookup_is_first(handlers: Seq<ToolHandler>, name: ToolName)
    ensures
        match lookup(handlers, name@) {
            Some(handler) => exists|at: int| #[trigger]
                first_called(handlers, name, at) && handlers[at] == handler,
            None => forall|i: int| 0 <= i < handlers.len() ==> !is_called(#[trigger] handlers[i], name),
        },
    decreases handlers.len(),
{
    if handlers.len() > 0 {
        let fewer = handlers.drop_last();
        let last = handlers.len() - 1;
        lemma_lookup_is_first(fewer, name);
        match lookup(fewer, name@) {
            Some(handler) => {
                let at = choose|at: int| #[trigger]
                    first_called(fewer, name, at) && fewer[at] == handler;
                assert forall|i: int| 0 <= i < at implies !is_called(#[trigger] handlers[i], name) by {
                    assert(fewer[i] == handlers[i]);
                }
                assert(first_called(handlers, name, at));
            },
            None => {
                assert forall|i: int| 0 <= i < last implies !is_called(
                    #[trigger] handlers[i],
                    name,
                ) by {
                    assert(fewer[i] == handlers[i]);
                }
                assert(handlers[last].name() == name@ <==> is_called(handlers[last], name));
                if handlers[last].name() == name@ {
                    assert(first_called(handlers, name, last));
                }
            },
        }
    }
}

/// A call finds the first tool that is called by its name, and none exactly if there is none.
pub proof fn law_calls_find_the_first_tool_of_their_name(
    registry: ToolRegistry,
    name: ToolName,
    found: Option<&ToolHandler>,
)
    requires
        call_ensures(ToolRegistry::handler, (&registry, &name), found),
    ensures
        found matches Some(handler) ==> exists|at: int| #[trigger]
            first_called(registry.handlers@, name, at) && registry.handlers@[at] == *handler,
        found is None ==> forall|i: int|
            0 <= i < registry.handlers@.len() ==> !is_called(#[trigger] registry.handlers@[i], name),
{
    lemma_lookup_is_first(registry.handlers@, name);
}

/// What a dispatch comes to: the model is told of a name without a tool, a payload that the tool
/// cannot take is fatal, the test tool says "ok", and the wait tool does what its text says. All
/// but the wait tool leave the cells alone.
pub proof fn law_dispatch_runs_the_tool_that_is_called<S: CodeModeSession>(
    registry: ToolRegistry,
    services: &mut SessionServices<S>,
    invocation: ToolInvocation,
    result: ToolResult,
    at: int,
)
    requires
        call_ensures(
            ToolRegistry::dispatch_any_with_terminal_outcome::<S>,
            (&registry, services, &invocation),
            result,
        ),
    ensures
        (forall|i: int|
            0 <= i < registry.handlers@.len() ==> !is_called(
                #[trigger] registry.handlers@[i],
                invocation.tool_name,
            )) ==> {
            &&& final(services).code_mode_service == old(services).code_mode_service
            &&& result matches Err(FunctionCallError::RespondToModel(message))
            &&& invocation.payload is Function ==> message@ == "unsupported call: "@
                + invocation.tool_name.name@
            &&& invocation.payload is Custom ==> message@ == "unsupported custom tool call: "@
                + invocation.tool_name.name@
        },
        first_called(registry.handlers@, invocation.tool_name, at) && invocation.payload is Custom
            ==> {
            &&& final(services).code_mode_service == old(services).code_mode_service
            &&& result matches Err(FunctionCallError::Fatal(message))
            &&& message@ == "tool "@ + invocation.tool_name.name@
                + " invoked with incompatible payload"@
        },
        first_called(registry.handlers@, invocation.tool_name, at) && registry.handlers@[at] is Test
            && invocation.payload is Function ==> {
            &&& final(services).code_mode_service == old(services).code_mode_service
            &&& result matches Ok(output)
            &&& output.text@ == "ok"@
            &&& output.success == Some(true)
        },
        first_called(registry.handlers@, invocation.tool_name, at)
            && registry.handlers@[at] is CodeModeWait ==> match invocation.payload {
            ToolPayload::Function { arguments } => wait_called(
                old(services).code_mode_service,
                final(services).code_mode_service,
                arguments@,
                result,
            ),
            ToolPayload::Custom { .. } => true,
        },
{
    lemma_lookup_is_first(registry.handlers@, invocation.tool_name);
    if let Some(handler) = lookup(registry.handlers@, invocation.tool_name@) {
        let first = choose|first: int| #[trigger]
            first_called(registry.handlers@, invocation.tool_name, first)
                && registry.handlers@[first] == handler;
        if first_called(registry.handlers@, invocation.tool_name, at) {
            assert(first == at);
        }
    }
}

/// A dispatched call of the wait tool ends the cell that its text names, or waits for it, and
/// what is handed back is what the session said.
pub proof fn law_dispatched_waits_do_what_their_text_says<S: CodeModeSession>(
    registry: ToolRegistry,
    services: &mut SessionServices<S>,
    invocation: ToolInvocation,
    result: ToolResult,
    at: int,
    cell_id: Seq<char>,
)
    requires
        call_ensures(
            ToolRegistry::dispatch_any_with_terminal_outcome::<S>,
            (&registry, services, &invocation),
            result,
        ),
        first_called(registry.handlers@, invocation.tool_name, at),
        registry.handlers@[at] is CodeModeWait,
    ensures
        invocation.payload matches ToolPayload::Function { arguments } ==> {
            &&& arguments@ == "{\"cell_id\":"@ + string_text(cell_id) + ",\"terminate\":true}"@
                ==> exists|reply: Result<OutcomeView, Seq<char>>| #[trigger]
                wait_handled(
                    old(services).code_mode_service,
                    final(services).code_mode_service,
                    cell_id,
                    true,
                    reply,
                    result,
                )
            &&& arguments@ == "{\"cell_id\":"@ + string_text(cell_id) + "}"@ ==> exists|
                reply: Result<OutcomeView, Seq<char>>,
            | #[trigger]
                wait_handled(
                    old(services).code_mode_service,
                    final(services).code_mode_service,
                    cell_id,
                    false,
                    reply,
                    result,
                )
        },
{
    law_dispatch_runs_the_tool_that_is_called(registry, services, invocation, result, at);
    law_named_cells_are_read(cell_id);
    if let ToolPayload::Function { arguments } = invocation.payload {
        if let Some((cell, terminate)) = read_arguments(arguments@) {
            lemma_wait_handled(
                old(services).code_mode_service,
                final(services).code_mode_service,
                cell,
                terminate,
                result,
            );
        }
    }
}

/// Every dispatch is traced, where there is a trace, behind all that was traced before: that the
/// call started, as it is, and that it ended, under its own id, as failed exactly if it failed or
/// the tool said so. What is kept of the result is what the model was shown of a direct call,
/// what the code was given in a cell, and why the call failed if it did.
pub proof fn law_dispatches_are_traced_from_start_to_end<S: CodeModeSession>(
    registry: ToolRegistry,
    services: &mut SessionServices<S>,
    invocation: ToolInvocation,
    result: ToolResult,
)
    requires
        call_ensures(
            ToolRegistry::dispatch_any_with_terminal_outcome::<S>,
            (&registry, services, &invocation),
            result,
        ),
    ensures
        old(services).rollout_thread_trace is None ==> final(services).rollout_thread_trace is None,
        old(services).rollout_thread_trace matches Some(before) ==> {
            let n = before.events@.len() as int;
            &&& final(services).rollout_thread_trace matches Some(after)
            &&& after.bundle_dir == before.bundle_dir
            &&& after.events@.len() == n + 2
            &&& forall|i: int| 0 <= i < n ==> #[trigger] after.events@[i] == before.events@[i]
            &&& after.events@[n] matches TraceEvent::ToolCallStarted(call)
            &&& kept_of(invocation, call)
            &&& after.events@[n + 1] matches TraceEvent::ToolCallEnded {
                tool_call_id,
                status,
                result: kept,
            }
            &&& tool_call_id@ == invocation.call_id@
            &&& !(status is Running)
            &&& status is Failed <==> (result is Err || result->Ok_0.success == Some(false))
            &&& result_kept(invocation, result, kept)
        },
{
}

/// `kept` is what a trace keeps of `result`.
pub open spec fn result_kept(
    invocation: ToolInvocation,
    result: ToolResult,
    kept: ToolResultPayload,
) -> bool {
    match result {
        Ok(output) => match invocation.source {
            ToolCallSource::Direct => kept matches ToolResultPayload::DirectResponse {
                call_id,
                text,
                success,
            } && call_id@ == invocation.call_id@ && text@ == output.text@ && success
                == output.success,
            ToolCallSource::CodeMode { .. } => kept matches ToolResultPayload::CodeModeResponse {
                value,
            } && value@ == output.text@,
        },
        Err(FunctionCallError::RespondToModel(reason)) => kept matches ToolResultPayload::Error {
            message,
        } && message@ == reason@,
        Err(FunctionCallError::Fatal(reason)) => kept matches ToolResultPayload::Error { message }
            && message@ == reason@,
    }
}

} // verus!
