//! The tools that can be called.

use crate::arguments::{
    law_named_cells_are_read, read_arguments, read_wait_arguments, WaitArguments,
};
use crate::cell::{
    reply_view, texts, OutcomeView, ResponseView, RuntimeResponse, WaitOutcome,
    WaitRequest,
};
use crate::code_mode::{last_word, CodeModeService};
use crate::invocation::ToolInvocation;
use crate::json::string_text;
use crate::runtime::CodeModeSession;
use crate::tool::{
    FunctionCallError, FunctionToolOutput, JsonSchema, ResponsesApiTool, ToolName, ToolNameView,
    ToolResult, ToolSpec,
};
use vstd::prelude::*;

verus! {

/// The name of the tool that waits for a cell.
pub const WAIT_TOOL_NAME: &'static str = "wait";

/// A tool that always says "ok".
#[derive(Debug)]
pub struct TestHandler {
    pub tool_name: ToolName,
}

/// What the test tool gives back.
pub open spec fn says_ok(result: ToolResult) -> bool {
    result matches Ok(output) && output.text@ == "ok"@ && output.success == Some(true)
}

impl TestHandler {
    pub fn tool_name(&self) -> (tool_name: ToolName)
        ensures
            tool_name == self.tool_name,
    {
        self.tool_name.clone()
    }

    /// A function under the tool's own name, whose arguments may be anything.
    pub fn spec(&self) -> (offered: ToolSpec)
        ensures
            offered matches ToolSpec::Function(tool) && {
                &&& tool.name == self.tool_name.name
                &&& tool.description@ == "Test tool."@
                &&& !tool.strict
                &&& tool.defer_loading is None
                &&& tool.parameters.keywords@ == Seq::<(String, String)>::empty()
                &&& tool.output_schema is None
            },
    {
        ToolSpec::Function(
            ResponsesApiTool {
                name: self.tool_name.name.clone(),
                description: "Test tool.".to_string(),
                strict: false,
                defer_loading: None,
                parameters: JsonSchema::default(),
                output_schema: None,
            },
        )
    }

    /// Says "ok", whatever the call.
    pub fn handle(&self, _invocation: &ToolInvocation) -> (result: ToolResult)
        ensures
            says_ok(result),
    {
        Ok(FunctionToolOutput::from_text("ok".to_string(), Some(true)))
    }
}

/// What a runtime answer tells the caller: what went wrong, or else all that the cell said.
pub open spec fn response_text(response: ResponseView) -> Seq<char> {
    match response {
        ResponseView::Yielded { content_items, .. } => content_items.flatten(),
        ResponseView::Terminated { content_items, .. } => content_items.flatten(),
        ResponseView::Result { content_items, error_text, .. } => match error_text {
            Some(error_text) => error_text,
            None => content_items.flatten(),
        },
    }
}

/// Whether a runtime answer reports no error.
pub open spec fn response_success(response: ResponseView) -> bool {
    !(response matches ResponseView::Result { error_text: Some(_), .. })
}

/// The answer inside an outcome.
pub open spec fn outcome_response(outcome: OutcomeView) -> ResponseView {
    match outcome {
        OutcomeView::LiveCell(response) => response,
        OutcomeView::MissingCell(response) => response,
    }
}

fn join(items: &Vec<String>) -> (text: String)
    ensures
        text@ == texts(items@).flatten(),
{
    let mut text = String::new();
    let mut i: usize = 0;
    proof {
        assert(texts(items@).take(0) =~= Seq::empty());
    }
    while i < items.len()
        invariant
            i <= items.len(),
            text@ == texts(items@).take(i as int).flatten(),
        decreases items.len() - i,
    {
        proof {
            let said = texts(items@);
            assert(said.take(i + 1) =~= said.take(i as int).push(said[i as int]));
            said.take(i as int).lemma_flatten_push(said[i as int]);
        }
        text.append(items[i].as_str());
        i += 1;
    }
    assert(texts(items@).take(i as int) =~= texts(items@));
    text
}

/// What the wait tool gives back for an outcome.
pub fn wait_output(outcome: &WaitOutcome) -> (output: FunctionToolOutput)
    ensures
        output.text@ == response_text(outcome_response(outcome@)),
        output.success == Some(response_success(outcome_response(outcome@))),
{
    let response = match outcome {
        WaitOutcome::LiveCell(response) => response,
        WaitOutcome::MissingCell(response) => response,
    };
    match response {
        RuntimeResponse::Yielded { content_items, .. } => FunctionToolOutput::from_text(
            join(content_items),
            Some(true),
        ),
        RuntimeResponse::Terminated { content_items, .. } => FunctionToolOutput::from_text(
            join(content_items),
            Some(true),
        ),
        RuntimeResponse::Result { content_items, error_text, .. } => match error_text {
            Some(error_text) => FunctionToolOutput::from_text(error_text.clone(), Some(false)),
            None => FunctionToolOutput::from_text(join(content_items), Some(true)),
        },
    }
}

/// `result` tells the caller what the session said: what came of the wait, or, as an error for
/// the model, why it failed.
pub open spec fn tells(reply: Result<OutcomeView, Seq<char>>, result: ToolResult) -> bool {
    match reply {
        Ok(outcome) => result matches Ok(output) && output.text@ == response_text(
            outcome_response(outcome),
        ) && output.success == Some(response_success(outcome_response(outcome))),
        Err(error) => result matches Err(FunctionCallError::RespondToModel(message)) && message@
            == error,
    }
}

/// What the wait tool gives back for a reply. A failing session is the model's to deal with.
pub fn wait_result(reply: &Result<WaitOutcome, String>) -> (result: ToolResult)
    ensures
        tells(reply_view(*reply), result),
{
    match reply {
        Ok(outcome) => Ok(wait_output(outcome)),
        Err(error) => Err(FunctionCallError::RespondToModel(error.clone())),
    }
}

/// The wait tool has taken the service from `before` to `after` and given `result`: it has asked
/// the session about the cell, once, the session has answered `reply`, and the service has taken
/// note of that.
pub open spec fn wait_answered<S: CodeModeSession>(
    before: CodeModeService<S>,
    after: CodeModeService<S>,
    cell_id: Seq<char>,
    terminate: bool,
    reply: Result<OutcomeView, Seq<char>>,
    result: ToolResult,
) -> bool {
    &&& if terminate {
        before.runtime().terminates(cell_id, after.runtime(), reply)
    } else {
        before.runtime().waits(cell_id, after.runtime(), reply)
    }
    &&& after@ == before@.observed(cell_id, reply)
    &&& tells(reply, result)
}

/// The same, whatever the session has answered.
pub open spec fn wait_asked<S: CodeModeSession>(
    before: CodeModeService<S>,
    after: CodeModeService<S>,
    cell_id: Seq<char>,
    terminate: bool,
    result: ToolResult,
) -> bool {
    exists|reply: Result<OutcomeView, Seq<char>>| #[trigger]
        wait_answered(before, after, cell_id, terminate, reply, result)
}

/// The same, for a call that carries `text`: where that cannot be read, the session hears
/// nothing of it and the model is told.
pub open spec fn wait_called<S: CodeModeSession>(
    before: CodeModeService<S>,
    after: CodeModeService<S>,
    text: Seq<char>,
    result: ToolResult,
) -> bool {
    match read_arguments(text) {
        Some((cell_id, terminate)) => wait_asked(before, after, cell_id, terminate, result),
        None => {
            &&& after == before
            &&& result matches Err(FunctionCallError::RespondToModel(message))
            &&& message@ == "failed to parse function arguments"@
        },
    }
}

/// The tool that waits for a cell, or ends it.
#[derive(Debug)]
pub struct CodeModeWaitHandler {}

impl CodeModeWaitHandler {
    /// Waits for the cell, or ends it, and tells what the session says.
    pub fn handle<S: CodeModeSession>(
        service: &mut CodeModeService<S>,
        arguments: WaitArguments,
    ) -> (result: ToolResult)
        requires
            old(service).wf(),
        ensures
            final(service).wf(),
            wait_asked(
                *old(service),
                *final(service),
                arguments.cell_id@,
                arguments.terminate,
                result,
            ),
    {
        let ghost cell_id = arguments.cell_id@;
        let reply = if arguments.terminate {
            service.terminate_cell(arguments.cell_id)
        } else {
            service.wait_for_cell(WaitRequest { cell_id: arguments.cell_id })
        };
        let result = wait_result(&reply);
        assert(wait_answered(
            *old(service),
            *service,
            cell_id,
            arguments.terminate,
            reply_view(reply),
            result,
        ));
        result
    }

    /// Handles a call by what its arguments were read as. Arguments that could not be read are
    /// answered to the model, and the session hears nothing of them.
    pub fn handle_read<S: CodeModeSession>(
        service: &mut CodeModeService<S>,
        arguments: Result<WaitArguments, String>,
    ) -> (result: ToolResult)
        requires
            old(service).wf(),
        ensures
            final(service).wf(),
            match arguments {
                Ok(arguments) => wait_asked(
                    *old(service),
                    *final(service),
                    arguments.cell_id@,
                    arguments.terminate,
                    result,
                ),
                Err(error) => {
                    &&& *final(service) == *old(service)
                    &&& result == Err::<FunctionToolOutput, FunctionCallError>(
                        FunctionCallError::RespondToModel(error),
                    )
                },
            },
    {
        match arguments {
            Ok(arguments) => Self::handle(service, arguments),
            Err(error) => Err(FunctionCallError::RespondToModel(error)),
        }
    }

    /// Handles a call that carries `text`.
    pub fn call<S: CodeModeSession>(service: &mut CodeModeService<S>, text: &str) -> (result:
        ToolResult)
        requires
            old(service).wf(),
        ensures
            final(service).wf(),
            wait_called(*old(service), *final(service), text@, result),
    {
        Self::handle_read(service, read_wait_arguments(text))
    }
}

/// A tool that can be called.
#[derive(Debug)]
pub enum ToolHandler {
    Test(TestHandler),
    CodeModeWait(CodeModeWaitHandler),
}

impl ToolHandler {
    /// The name that the tool is called by.
    pub open spec fn name(self) -> ToolNameView {
        match self {
            ToolHandler::Test(handler) => handler.tool_name@,
            ToolHandler::CodeModeWait(_) => ToolNameView { name: WAIT_TOOL_NAME@, namespace: None },
        }
    }

    /// The name that the tool is called by.
    pub fn tool_name(&self) -> (tool_name: ToolName)
        ensures
            tool_name@ == self.name(),
    {
        match self {
            ToolHandler::Test(handler) => handler.tool_name(),
            ToolHandler::CodeModeWait(_) => ToolName::plain(WAIT_TOOL_NAME),
        }
    }
}

/// A cell of which the wait tool was told the last word is not ended again: it is no longer
/// live, and every other cell stands as it stood.
pub proof fn law_waited_cell_is_not_ended_again<S: CodeModeSession>(
    before: CodeModeService<S>,
    after: CodeModeService<S>,
    cell_id: Seq<char>,
    terminate: bool,
    reply: Result<OutcomeView, Seq<char>>,
    result: ToolResult,
    other: Seq<char>,
)
    requires
        wait_answered(before, after, cell_id, terminate, reply, result),
        last_word(reply),
        other != cell_id,
    ensures
        !after@.gates.contains_key(cell_id),
        after@.gates.contains_key(other) <==> before@.gates.contains_key(other),
        before@.gates.contains_key(other) ==> after@.gates[other] == before@.gates[other],
{
}

/// The test tool offers itself as a function under its own name, which is not strict, not
/// deferred, and says nothing of its arguments or its output.
pub proof fn law_test_tool_offers_itself(
    handler: TestHandler,
    name: ToolName,
    offered: ToolSpec,
)
    requires
        call_ensures(TestHandler::tool_name, (&handler,), name),
        call_ensures(TestHandler::spec, (&handler,), offered),
    ensures
        name == handler.tool_name,
        offered matches ToolSpec::Function(tool) && tool.name@ == handler.tool_name.name@
            && tool.description@ == "Test tool."@ && !tool.strict && tool.defer_loading is None
            && tool.parameters.keywords@.len() == 0 && tool.output_schema is None,
{
}

/// Whatever the call, the test tool says "ok".
pub proof fn law_test_tool_says_ok(
    handler: TestHandler,
    invocation: ToolInvocation,
    result: ToolResult,
)
    requires
        call_ensures(TestHandler::handle, (&handler, &invocation), result),
    ensures
        result matches Ok(output) && output.text@ == "ok"@ && output.success == Some(true),
{
}

/// A tool is called by its own name, and the one that waits for cells by "wait".
pub proof fn law_tools_are_called_by_their_names(handler: ToolHandler, name: ToolName)
    requires
        call_ensures(ToolHandler::tool_name, (&handler,), name),
    ensures
        handler matches ToolHandler::Test(tool) ==> name@ == tool.tool_name@,
        handler is CodeModeWait ==> name.name@ == "wait"@ && !(name.namespace is Named),
{
}

/// The texts of `items`, one behind the other.
pub open spec fn joined(items: Seq<String>) -> Seq<char>
    decreases items.len(),
{
    if items.len() == 0 {
        Seq::empty()
    } else {
        items[0]@ + joined(items.skip(1))
    }
}

proof fn lemma_joined(items: Seq<String>)
    ensures
        texts(items).flatten() == joined(items),
    decreases items.len(),
{
    if items.len() > 0 {
        assert(texts(items).drop_first() =~= texts(items.skip(1)));
        lemma_joined(items.skip(1));
    }
}

/// `output` hands `response` back: what went wrong as a failure, or else all that the cell said,
/// in its order, as a success.
pub open spec fn hands_back(response: RuntimeResponse, output: FunctionToolOutput) -> bool {
    match response {
        RuntimeResponse::Yielded { content_items, .. } => {
            &&& output.text@ == joined(content_items@)
            &&& output.success == Some(true)
        },
        RuntimeResponse::Terminated { content_items, .. } => {
            &&& output.text@ == joined(content_items@)
            &&& output.success == Some(true)
        },
        RuntimeResponse::Result { content_items, error_text: None, .. } => {
            &&& output.text@ == joined(content_items@)
            &&& output.success == Some(true)
        },
        RuntimeResponse::Result { error_text: Some(error_text), .. } => {
            &&& output.text@ == error_text@
            &&& output.success == Some(false)
        },
    }
}

/// The wait tool hands back all that the runtime said of a cell, whether it knew the cell or not.
pub proof fn law_runtime_answers_are_handed_back(outcome: WaitOutcome, output: FunctionToolOutput)
    requires
        call_ensures(wait_output, (&outcome,), output),
    ensures
        outcome matches WaitOutcome::LiveCell(response) ==> hands_back(response, output),
        outcome matches WaitOutcome::MissingCell(response) ==> hands_back(response, output),
{
    lemma_handed_back(outcome, output);
}

proof fn lemma_handed_back(outcome: WaitOutcome, output: FunctionToolOutput)
    requires
        output.text@ == response_text(outcome_response(outcome@)),
        output.success == Some(response_success(outcome_response(outcome@))),
    ensures
        outcome matches WaitOutcome::LiveCell(response) ==> hands_back(response, output),
        outcome matches WaitOutcome::MissingCell(response) ==> hands_back(response, output),
{
    let response = match outcome {
        WaitOutcome::LiveCell(response) => response,
        WaitOutcome::MissingCell(response) => response,
    };
    match response {
        RuntimeResponse::Yielded { content_items, .. } => {
            lemma_joined(content_items@);
        },
        RuntimeResponse::Terminated { content_items, .. } => {
            lemma_joined(content_items@);
        },
        RuntimeResponse::Result { content_items, .. } => {
            lemma_joined(content_items@);
        },
    }
}

/// What the session answered is handed back, and why it failed is told to the model.
pub proof fn law_session_replies_are_handed_back(
    reply: Result<WaitOutcome, String>,
    result: ToolResult,
)
    requires
        call_ensures(wait_result, (&reply,), result),
    ensures
        reply matches Ok(WaitOutcome::LiveCell(response)) ==> result is Ok && hands_back(
            response,
            result->Ok_0,
        ),
        reply matches Ok(WaitOutcome::MissingCell(response)) ==> result is Ok && hands_back(
            response,
            result->Ok_0,
        ),
        reply matches Err(error) ==> {
            &&& result matches Err(FunctionCallError::RespondToModel(message))
            &&& message@ == error@
        },
{
    if let Ok(outcome) = reply {
        lemma_handed_back(outcome, result->Ok_0);
    }
}

/// `result` tells what a session answered of a cell: why it failed, what went wrong in the cell,
/// or else all that the cell said.
pub open spec fn reply_told(reply: Result<OutcomeView, Seq<char>>, result: ToolResult) -> bool {
    match reply {
        Err(error) => {
            &&& result matches Err(FunctionCallError::RespondToModel(message))
            &&& message@ == error
        },
        Ok(OutcomeView::LiveCell(response)) => response_told(response, result),
        Ok(OutcomeView::MissingCell(response)) => response_told(response, result),
    }
}

/// `result` tells what a session said of a cell.
pub open spec fn response_told(response: ResponseView, result: ToolResult) -> bool {
    result matches Ok(output) && match response {
        ResponseView::Yielded { content_items, .. } => output.text@ == content_items.flatten()
            && output.success == Some(true),
        ResponseView::Terminated { content_items, .. } => output.text@ == content_items.flatten()
            && output.success == Some(true),
        ResponseView::Result { content_items, error_text: None, .. } => output.text@
            == content_items.flatten() && output.success == Some(true),
        ResponseView::Result { error_text: Some(error_text), .. } => output.text@ == error_text
            && output.success == Some(false),
    }
}

/// The session was asked about the cell, to end it or to wait for it, and answered `reply`. That
/// is told, and the cell is live afterwards only if it was and the session failed or the cell
/// still runs. No other cell is touched.
pub open spec fn wait_handled<S: CodeModeSession>(
    before: CodeModeService<S>,
    after: CodeModeService<S>,
    cell_id: Seq<char>,
    terminate: bool,
    reply: Result<OutcomeView, Seq<char>>,
    result: ToolResult,
) -> bool {
    &&& terminate ==> before.runtime().terminates(cell_id, after.runtime(), reply)
    &&& !terminate ==> before.runtime().waits(cell_id, after.runtime(), reply)
    &&& reply_told(reply, result)
    &&& after@.executing == before@.executing
    &&& after@.interrupting == before@.interrupting
    &&& after@.gates.contains_key(cell_id) <==> before@.gates.contains_key(cell_id) && (reply is Err
        || reply matches Ok(OutcomeView::LiveCell(ResponseView::Yielded { .. })))
    &&& forall|other: Seq<char>|
        other != cell_id ==> (#[trigger] after@.gates.contains_key(other)
            <==> before@.gates.contains_key(other))
    &&& forall|other: Seq<char>| #[trigger]
        after@.gates.contains_key(other) ==> after@.gates[other] == before@.gates[other]
}

/// Whatever the session answered, it was asked and told of as `wait_handled` says.
pub proof fn lemma_wait_handled<S: CodeModeSession>(
    before: CodeModeService<S>,
    after: CodeModeService<S>,
    cell_id: Seq<char>,
    terminate: bool,
    result: ToolResult,
)
    requires
        wait_asked(before, after, cell_id, terminate, result),
    ensures
        exists|reply: Result<OutcomeView, Seq<char>>| #[trigger]
            wait_handled(before, after, cell_id, terminate, reply, result),
{
    let reply = choose|reply: Result<OutcomeView, Seq<char>>| #[trigger]
        wait_answered(before, after, cell_id, terminate, reply, result);
    assert(wait_handled(before, after, cell_id, terminate, reply, result));
}

/// The wait tool asks the session about the very cell it is called for, to end it if that was
/// asked and to wait for it otherwise, and tells what came of that.
pub proof fn law_wait_tool_asks_about_its_cell<S: CodeModeSession>(
    service: &mut CodeModeService<S>,
    arguments: WaitArguments,
    result: ToolResult,
)
    requires
        call_ensures(CodeModeWaitHandler::handle::<S>, (service, arguments), result),
    ensures
        exists|reply: Result<OutcomeView, Seq<char>>| #[trigger]
            wait_handled(
                *old(service),
                *final(service),
                arguments.cell_id.value@,
                arguments.terminate,
                reply,
                result,
            ),
{
    lemma_wait_handled(
        *old(service),
        *final(service),
        arguments.cell_id@,
        arguments.terminate,
        result,
    );
}

/// Arguments that could not be read are answered to the model as they are, and touch nothing;
/// those that could are handled as the wait tool handles any.
pub proof fn law_unread_arguments_are_answered<S: CodeModeSession>(
    service: &mut CodeModeService<S>,
    arguments: Result<WaitArguments, String>,
    result: ToolResult,
)
    requires
        call_ensures(CodeModeWaitHandler::handle_read::<S>, (service, arguments), result),
    ensures
        arguments matches Err(error) ==> {
            &&& *final(service) == *old(service)
            &&& result matches Err(FunctionCallError::RespondToModel(message))
            &&& message@ == error@
        },
        arguments matches Ok(read) ==> exists|reply: Result<OutcomeView, Seq<char>>| #[trigger]
            wait_handled(
                *old(service),
                *final(service),
                read.cell_id.value@,
                read.terminate,
                reply,
                result,
            ),
{
    if let Ok(read) = arguments {
        lemma_wait_handled(
            *old(service),
            *final(service),
            read.cell_id@,
            read.terminate,
            result,
        );
    }
}

/// A call of the wait tool that carries the JSON text naming a cell, and saying to end it, not to
/// end it or nothing, asks the session about that cell accordingly.
pub proof fn law_wait_calls_do_what_their_text_says<S: CodeModeSession>(
    service: &mut CodeModeService<S>,
    text: &str,
    cell_id: Seq<char>,
    result: ToolResult,
)
    requires
        call_ensures(CodeModeWaitHandler::call::<S>, (service, text), result),
    ensures
        text@ == "{\"cell_id\":"@ + string_text(cell_id) + ",\"terminate\":true}"@
            ==> exists|reply: Result<OutcomeView, Seq<char>>| #[trigger]
            wait_handled(*old(service), *final(service), cell_id, true, reply, result),
        text@ == "{\"cell_id\":"@ + string_text(cell_id) + ",\"terminate\":false}"@
            ==> exists|reply: Result<OutcomeView, Seq<char>>| #[trigger]
            wait_handled(*old(service), *final(service), cell_id, false, reply, result),
        text@ == "{\"cell_id\":"@ + string_text(cell_id) + "}"@
            ==> exists|reply: Result<OutcomeView, Seq<char>>| #[trigger]
            wait_handled(*old(service), *final(service), cell_id, false, reply, result),
{
    law_named_cells_are_read(cell_id);
    if let Some((cell, terminate)) = read_arguments(text@) {
        lemma_wait_handled(*old(service), *final(service), cell, terminate, result);
    }
}

/// A call of the wait tool whose text is not read as arguments touches nothing and is answered
/// to the model.
pub proof fn law_unreadable_wait_calls_touch_nothing<S: CodeModeSession>(
    service: &mut CodeModeService<S>,
    text: &str,
    result: ToolResult,
)
    requires
        call_ensures(CodeModeWaitHandler::call::<S>, (service, text), result),
        read_arguments(text@) is None,
    ensures
        *final(service) == *old(service),
        result matches Err(FunctionCallError::RespondToModel(message)) && message@
            == "failed to parse function arguments"@,
{
}

} // verus!
