//! What a code-mode session does for a service: it runs requests in cells, and waits for cells or
//! ends them.

use crate::cell::{
    reply_view, texts, CellId, ExecuteRequest, OutcomeView, ResponseView, RuntimeResponse,
    StartedCell, StartedView, WaitOutcome, WaitRequest,
};
use std::sync::Arc;
use tokio::sync::Barrier;
use vstd::prelude::*;

verus! {

/// An execution that has been asked for and is not yet over.
#[derive(Debug)]
pub enum ExecuteTask {
    /// The task has to meet others at `barrier`, and once more after that if `again`.
    AwaitBarrier { barrier: Arc<Barrier>, again: bool, cell_id: CellId },
    /// The cell has started, or could not be.
    Over(Result<StartedCell, String>),
}

/// An `ExecuteTask` with its strings read as texts.
pub enum TaskView {
    AwaitBarrier { barrier: Barrier, again: bool, cell_id: Seq<char> },
    Over(Result<StartedView, Seq<char>>),
}

impl View for ExecuteTask {
    type V = TaskView;

    open spec fn view(&self) -> TaskView {
        match *self {
            ExecuteTask::AwaitBarrier { barrier, again, cell_id } => TaskView::AwaitBarrier {
                barrier: *barrier,
                again,
                cell_id: cell_id@,
            },
            ExecuteTask::Over(Ok(started)) => TaskView::Over(Ok(started@)),
            ExecuteTask::Over(Err(error)) => TaskView::Over(Err(error@)),
        }
    }
}

/// The started cell `cell_id`, which has said nothing yet and still runs.
pub open spec fn freshly_started(cell_id: Seq<char>) -> StartedView {
    StartedView {
        cell_id,
        initial_response: Ok(
            ResponseView::Yielded {
                code_mode_host_duration: None,
                cell_id,
                content_items: Seq::empty(),
            },
        ),
    }
}

/// Where an execution stands once its next rendezvous is over.
pub open spec fn resumed(task: TaskView) -> TaskView {
    match task {
        TaskView::AwaitBarrier { barrier, again, cell_id } => if again {
            TaskView::AwaitBarrier { barrier, again: false, cell_id }
        } else {
            TaskView::Over(Ok(freshly_started(cell_id)))
        },
        TaskView::Over(result) => TaskView::Over(result),
    }
}

/// Starts `cell_id`.
pub fn start_cell(cell_id: CellId) -> (started: StartedCell)
    ensures
        started@ == freshly_started(cell_id@),
{
    let response_cell_id = cell_id.clone();
    let started = StartedCell {
        cell_id,
        initial_response: Ok(
            RuntimeResponse::Yielded {
                code_mode_host_duration: None,
                cell_id: response_cell_id,
                content_items: Vec::new(),
            },
        ),
    };
    assert(started@.initial_response->Ok_0->Yielded_content_items =~= Seq::empty());
    started
}

impl ExecuteTask {
    /// Carries the execution on after the rendezvous it was waiting for.
    pub fn resume(self) -> (next: ExecuteTask)
        ensures
            next@ == resumed(self@),
    {
        match self {
            ExecuteTask::AwaitBarrier { barrier, again, cell_id } => if again {
                ExecuteTask::AwaitBarrier { barrier, again: false, cell_id }
            } else {
                ExecuteTask::Over(Ok(start_cell(cell_id)))
            },
            ExecuteTask::Over(result) => ExecuteTask::Over(result),
        }
    }
}

/// A session with a code-mode runtime. The relations say, for each kind of session, what it may
/// answer and how it may stand afterwards; a session that does not define one of them may answer
/// anything there.
pub trait CodeModeSession: Sized {
    /// Asked to run `request`, the session may come as far as `task` and stand as `after`.
    open spec fn executes(self, request: ExecuteRequest, after: Self, task: TaskView) -> bool {
        true
    }

    /// Asked to wait for a cell, the session may answer `reply` and stand as `after`.
    open spec fn waits(
        self,
        cell_id: Seq<char>,
        after: Self,
        reply: Result<OutcomeView, Seq<char>>,
    ) -> bool {
        true
    }

    /// Asked to end a cell, the session may answer `reply` and stand as `after`.
    open spec fn terminates(
        self,
        cell_id: Seq<char>,
        after: Self,
        reply: Result<OutcomeView, Seq<char>>,
    ) -> bool {
        true
    }

    /// Shut down, the session may answer `done`.
    open spec fn shuts_down(self, done: Result<(), Seq<char>>) -> bool {
        true
    }

    /// Runs `request` in a cell.
    fn execute(&mut self, request: ExecuteRequest) -> (task: ExecuteTask)
        ensures
            old(self).executes(request, *final(self), task@),
    ;

    /// Waits for more of a cell's output.
    fn wait(&mut self, request: WaitRequest) -> (reply: Result<WaitOutcome, String>)
        ensures
            old(self).waits(request.cell_id@, *final(self), reply_view(reply)),
    ;

    /// Ends a cell.
    fn terminate(&mut self, cell_id: CellId) -> (reply: Result<WaitOutcome, String>)
        ensures
            old(self).terminates(cell_id@, *final(self), reply_view(reply)),
    ;

    /// Shuts the session down.
    fn shutdown(&self) -> (done: Result<(), String>)
        ensures
            self.shuts_down(
                match done {
                    Ok(()) => Ok(()),
                    Err(error) => Err(error@),
                },
            ),
    ;
}

/// Asked to end each of `cells` once, in that order, the session `before` may answer `replies`
/// and stand as `after`.
pub open spec fn terminates_all<S: CodeModeSession>(
    before: S,
    cells: Seq<Seq<char>>,
    after: S,
    replies: Seq<Result<OutcomeView, Seq<char>>>,
) -> bool
    decreases cells.len(),
{
    &&& replies.len() == cells.len()
    &&& if cells.len() == 0 {
        after == before
    } else {
        exists|last: S|
            terminates_all(before, cells.drop_last(), last, replies.drop_last())
                && #[trigger] last.terminates(cells.last(), after, replies.last())
    }
}

/// Ending cells takes the session through as many states as there are cells and one more, and
/// each step is the session being asked to end the next cell.
pub proof fn law_sessions_end_cells_in_turn<S: CodeModeSession>(
    before: S,
    cells: Seq<Seq<char>>,
    after: S,
    replies: Seq<Result<OutcomeView, Seq<char>>>,
)
    requires
        terminates_all(before, cells, after, replies),
    ensures
        replies.len() == cells.len(),
        exists|sessions: Seq<S>|
            #![trigger sessions.len()]
            sessions.len() == cells.len() + 1 && sessions[0] == before && sessions[cells.len() as int]
                == after && forall|i: int|
                0 <= i < cells.len() ==> (#[trigger] sessions[i]).terminates(
                    cells[i],
                    sessions[i + 1],
                    replies[i],
                ),
    decreases cells.len(),
{
    if cells.len() == 0 {
        assert(seq![before].len() == 1);
    } else {
        let fewer = cells.drop_last();
        let last = choose|last: S|
            terminates_all(before, fewer, last, replies.drop_last()) && #[trigger] last.terminates(
                cells.last(),
                after,
                replies.last(),
            );
        law_sessions_end_cells_in_turn(before, fewer, last, replies.drop_last());
        let sessions = choose|sessions: Seq<S>|
            #![trigger sessions.len()]
            sessions.len() == fewer.len() + 1 && sessions[0] == before
                && sessions[fewer.len() as int] == last && forall|i: int|
                0 <= i < fewer.len() ==> (#[trigger] sessions[i]).terminates(
                    fewer[i],
                    sessions[i + 1],
                    replies.drop_last()[i],
                );
        let all = sessions.push(after);
        assert forall|i: int| 0 <= i < cells.len() implies (#[trigger] all[i]).terminates(
            cells[i],
            all[i + 1],
            replies[i],
        ) by {
            if i < fewer.len() {
                assert(all[i] == sessions[i] && all[i + 1] == sessions[i + 1]);
                assert(fewer[i] == cells[i] && replies.drop_last()[i] == replies[i]);
            }
        }
        assert(all.len() == cells.len() + 1);
    }
}

/// A cell that is started goes by the name it was given, still runs and has said nothing yet.
pub proof fn law_started_cells_still_run(cell_id: CellId, started: StartedCell)
    requires
        call_ensures(start_cell, (cell_id,), started),
    ensures
        started.cell_id.value@ == cell_id.value@,
        started.initial_response matches Ok(
            RuntimeResponse::Yielded { code_mode_host_duration, cell_id: same, content_items },
        ) && code_mode_host_duration is None && same.value@ == cell_id.value@
            && content_items@.len() == 0,
{
    if let Ok(RuntimeResponse::Yielded { content_items, .. }) = started.initial_response {
        assert(texts(content_items@).len() == content_items@.len());
    }
}

/// An execution that waits for its first rendezvous waits for one more at the same barrier, one
/// that waits for its last starts its own cell, and one that is over stays as it is.
pub proof fn law_executions_meet_and_start(task: ExecuteTask, next: ExecuteTask)
    requires
        call_ensures(ExecuteTask::resume, (task,), next),
    ensures
        task matches ExecuteTask::AwaitBarrier { barrier, again: true, cell_id } ==> {
            &&& next matches ExecuteTask::AwaitBarrier { barrier: same, again, cell_id: cell }
            &&& *same == *barrier
            &&& !again
            &&& cell.value@ == cell_id.value@
        },
        task matches ExecuteTask::AwaitBarrier { barrier, again: false, cell_id } ==> {
            &&& next matches ExecuteTask::Over(Ok(started))
            &&& started.cell_id.value@ == cell_id.value@
            &&& started.initial_response matches Ok(
                RuntimeResponse::Yielded { cell_id: same, content_items, .. },
            )
            &&& same.value@ == cell_id.value@
            &&& content_items@.len() == 0
        },
        task matches ExecuteTask::Over(Ok(started)) ==> {
            &&& next matches ExecuteTask::Over(Ok(same))
            &&& same.cell_id.value@ == started.cell_id.value@
            &&& same@ == started@
        },
        task matches ExecuteTask::Over(Err(error)) ==> {
            &&& next matches ExecuteTask::Over(Err(same))
            &&& same@ == error@
        },
{
    if let ExecuteTask::Over(Ok(started)) = next {
        if let Ok(RuntimeResponse::Yielded { content_items, .. }) = started.initial_response {
            assert(texts(content_items@).len() == content_items@.len());
        }
    }
}

/// A view of an execution keeps where it has to meet others, whether once more after that, and
/// its cell, or what it came to.
pub proof fn law_views_keep_executions(task: ExecuteTask)
    ensures
        task matches ExecuteTask::AwaitBarrier { barrier, again, cell_id } ==> task@ == (
        TaskView::AwaitBarrier { barrier: *barrier, again, cell_id: cell_id.value@ }),
        task matches ExecuteTask::Over(Ok(started)) ==> task@ == TaskView::Over(Ok(started@)),
        task matches ExecuteTask::Over(Err(error)) ==> task@ == TaskView::Over(Err(error@)),
{
}

} // verus!
