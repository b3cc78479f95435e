//! Runtime cells as the code-mode runtime speaks of them: their ids, the requests made of them
//! and the replies that come back.

use vstd::prelude::*;

verus! {

/// The runtime's name for one cell.
#[derive(Debug)]
pub struct CellId {
    pub value: String,
}

impl View for CellId {
    type V = Seq<char>;

    open spec fn view(&self) -> Seq<char> {
        self.value@
    }
}

impl CellId {
    pub fn new(value: String) -> (id: CellId)
        ensures
            id.value == value,
    {
        CellId { value }
    }
}

impl Clone for CellId {
    fn clone(&self) -> (copy: Self)
        ensures
            copy == *self,
    {
        CellId { value: self.value.clone() }
    }
}

/// What the runtime is asked to run as a new cell.
#[derive(Debug)]
pub struct ExecuteRequest {
    pub tool_call_id: String,
    /// The names of the tools that the cell may call.
    pub enabled_tools: Vec<String>,
    pub source: String,
    pub yield_time_ms: Option<u64>,
    pub max_output_tokens: Option<usize>,
}

/// A request to wait for more of a cell's output.
#[derive(Debug)]
pub struct WaitRequest {
    pub cell_id: CellId,
}

/// What the runtime answers about a cell.
#[derive(Debug)]
pub enum RuntimeResponse {
    /// The cell still runs.
    Yielded {
        /// In nanoseconds, where the host measured it.
        code_mode_host_duration: Option<u64>,
        cell_id: CellId,
        content_items: Vec<String>,
    },
    /// The cell was ended before it was done.
    Terminated {
        code_mode_host_duration: Option<u64>,
        cell_id: CellId,
        content_items: Vec<String>,
    },
    /// The cell is done, or could not be found.
    Result {
        code_mode_host_duration: Option<u64>,
        cell_id: CellId,
        content_items: Vec<String>,
        error_text: Option<String>,
    },
}

/// The texts of a list of strings.
pub open spec fn texts(items: Seq<String>) -> Seq<Seq<char>> {
    items.map_values(|item: String| item@)
}

/// The text of an optional string.
pub open spec fn text_opt(text: Option<String>) -> Option<Seq<char>> {
    match text {
        Some(text) => Some(text@),
        None => None,
    }
}

pub(crate) fn copy_text(text: &Option<String>) -> (copy: Option<String>)
    ensures
        copy == *text,
{
    match text {
        Some(text) => Some(text.clone()),
        None => None,
    }
}

/// A `RuntimeResponse` with its strings read as texts.
pub enum ResponseView {
    Yielded { code_mode_host_duration: Option<u64>, cell_id: Seq<char>, content_items: Seq<Seq<char>> },
    Terminated {
        code_mode_host_duration: Option<u64>,
        cell_id: Seq<char>,
        content_items: Seq<Seq<char>>,
    },
    Result {
        code_mode_host_duration: Option<u64>,
        cell_id: Seq<char>,
        content_items: Seq<Seq<char>>,
        error_text: Option<Seq<char>>,
    },
}

impl View for RuntimeResponse {
    type V = ResponseView;

    open spec fn view(&self) -> ResponseView {
        match *self {
            RuntimeResponse::Yielded { code_mode_host_duration, cell_id, content_items } => {
                ResponseView::Yielded {
                    code_mode_host_duration,
                    cell_id: cell_id@,
                    content_items: texts(content_items@),
                }
            },
            RuntimeResponse::Terminated { code_mode_host_duration, cell_id, content_items } => {
                ResponseView::Terminated {
                    code_mode_host_duration,
                    cell_id: cell_id@,
                    content_items: texts(content_items@),
                }
            },
            RuntimeResponse::Result {
                code_mode_host_duration,
                cell_id,
                content_items,
                error_text,
            } => ResponseView::Result {
                code_mode_host_duration,
                cell_id: cell_id@,
                content_items: texts(content_items@),
                error_text: text_opt(error_text),
            },
        }
    }
}

/// Whether the runtime still knew the cell that it was asked about.
#[derive(Debug)]
pub enum WaitOutcome {
    LiveCell(RuntimeResponse),
    MissingCell(RuntimeResponse),
}

/// A `WaitOutcome` with its strings read as texts.
pub enum OutcomeView {
    LiveCell(ResponseView),
    MissingCell(ResponseView),
}

impl View for WaitOutcome {
    type V = OutcomeView;

    open spec fn view(&self) -> OutcomeView {
        match *self {
            WaitOutcome::LiveCell(response) => OutcomeView::LiveCell(response@),
            WaitOutcome::MissingCell(response) => OutcomeView::MissingCell(response@),
        }
    }
}

/// A runtime reply with its strings read as texts.
pub open spec fn reply_view(reply: Result<WaitOutcome, String>) -> Result<OutcomeView, Seq<char>> {
    match reply {
        Ok(outcome) => Ok(outcome@),
        Err(error) => Err(error@),
    }
}

/// A cell that the runtime has started, with the first thing it says.
#[derive(Debug)]
pub struct StartedCell {
    pub cell_id: CellId,
    pub initial_response: Result<RuntimeResponse, String>,
}

/// A `StartedCell` with its strings read as texts.
pub struct StartedView {
    pub cell_id: Seq<char>,
    pub initial_response: Result<ResponseView, Seq<char>>,
}

impl View for StartedCell {
    type V = StartedView;

    open spec fn view(&self) -> StartedView {
        StartedView {
            cell_id: self.cell_id@,
            initial_response: match self.initial_response {
                Ok(response) => Ok(response@),
                Err(error) => Err(error@),
            },
        }
    }
}

/// A view keeps all that the runtime said: which kind of answer it is, of which cell, and every
/// text in its order.
pub proof fn law_views_keep_responses(response: RuntimeResponse)
    ensures
        response matches RuntimeResponse::Yielded {
            code_mode_host_duration,
            cell_id,
            content_items,
        } ==> {
            &&& response@ matches ResponseView::Yielded {
                code_mode_host_duration: duration,
                cell_id: cell,
                content_items: items,
            }
            &&& duration == code_mode_host_duration
            &&& cell == cell_id.value@
            &&& items.len() == content_items@.len()
            &&& forall|i: int| 0 <= i < items.len() ==> #[trigger] items[i] == content_items@[i]@
        },
        response matches RuntimeResponse::Terminated {
            code_mode_host_duration,
            cell_id,
            content_items,
        } ==> {
            &&& response@ matches ResponseView::Terminated {
                code_mode_host_duration: duration,
                cell_id: cell,
                content_items: items,
            }
            &&& duration == code_mode_host_duration
            &&& cell == cell_id.value@
            &&& items.len() == content_items@.len()
            &&& forall|i: int| 0 <= i < items.len() ==> #[trigger] items[i] == content_items@[i]@
        },
        response matches RuntimeResponse::Result {
            code_mode_host_duration,
            cell_id,
            content_items,
            error_text,
        } ==> {
            &&& response@ matches ResponseView::Result {
                code_mode_host_duration: duration,
                cell_id: cell,
                content_items: items,
                error_text: error,
            }
            &&& duration == code_mode_host_duration
            &&& cell == cell_id.value@
            &&& items.len() == content_items@.len()
            &&& forall|i: int| 0 <= i < items.len() ==> #[trigger] items[i] == content_items@[i]@
            &&& error is None <==> error_text is None
            &&& error_text matches Some(text) ==> error == Some(text@)
        },
{
}

/// A view keeps whether the cell was known, or why the session failed, and a started cell's name
/// and first answer.
pub proof fn law_views_keep_replies(reply: Result<WaitOutcome, String>, started: StartedCell)
    ensures
        reply matches Ok(WaitOutcome::LiveCell(response)) ==> reply_view(reply) == Ok::<
            OutcomeView,
            Seq<char>,
        >(OutcomeView::LiveCell(response@)),
        reply matches Ok(WaitOutcome::MissingCell(response)) ==> reply_view(reply) == Ok::<
            OutcomeView,
            Seq<char>,
        >(OutcomeView::MissingCell(response@)),
        reply matches Err(error) ==> reply_view(reply) == Err::<OutcomeView, Seq<char>>(error@),
        started@.cell_id == started.cell_id.value@,
        started.initial_response matches Ok(response) ==> started@.initial_response == Ok::<
            ResponseView,
            Seq<char>,
        >(response@),
        started.initial_response matches Err(error) ==> started@.initial_response == Err::<
            ResponseView,
            Seq<char>,
        >(error@),
{
}

/// A cell goes by the name that it is given.
pub proof fn law_cells_go_by_their_name(value: String, id: CellId)
    requires
        call_ensures(CellId::new, (value,), id),
    ensures
        id.value@ == value@,
        id@ == value@,
{
}

} // verus!
