//! Which runtime cells are live, and how executions and interrupts take turns.
//!
//! An execution holds the admission from the moment it is let in until its cell has a dispatch
//! gate. An interrupt needs the admission to itself: it waits for the executions that are under
//! way, so that it sees their cells, and keeps new ones out until it is done.

use crate::cell::{
    reply_view, text_opt, CellId, ExecuteRequest, OutcomeView, RuntimeResponse, StartedCell,
    StartedView, WaitOutcome, WaitRequest,
};
use crate::runtime::{
    law_sessions_end_cells_in_turn, resumed, terminates_all, CodeModeSession, ExecuteTask, TaskView,
};
use crate::session::{
    counted, law_each_cell_is_ended_by_name, terminate_reply, TestCodeModeSession,
    TestCodeModeSessionProvider, TestTerminateOutcome,
};
use std::sync::Arc;
use tokio_util::sync::CancellationToken;
use vstd::prelude::*;

verus! {

/// The dispatch gate of a live cell.
#[derive(Debug)]
struct DispatchGate {
    cell_id: CellId,
    ready: bool,
    originating_item_id: Option<String>,
}

/// What is known of a live cell.
pub struct GateView {
    /// Whether its tool calls may be dispatched.
    pub ready: bool,
    /// The item of the conversation that the cell belongs to, where it is known.
    pub originating_item_id: Option<Seq<char>>,
}

/// How a cell stands that has just gone live.
pub open spec fn fresh_gate() -> GateView {
    GateView { ready: false, originating_item_id: None }
}

/// A session, its live cells, and who holds the admission.
#[derive(Debug)]
pub struct CodeModeService<S> {
    session: S,
    gates: Vec<DispatchGate>,
    executing: usize,
    interrupting: bool,
}

/// The state of a `CodeModeService` beside its session, which is its `runtime`.
#[verifier::ext_equal]
pub struct ServiceView {
    /// The live cells, by their ids.
    pub gates: Map<Seq<char>, GateView>,
    /// How many executions are under way.
    pub executing: nat,
    /// Whether an interrupt is under way.
    pub interrupting: bool,
}

/// The answer to an execution that asks to be let in.
#[derive(Clone, Copy, Debug, PartialEq, Eq, Structural)]
pub enum Admission {
    Granted,
    /// The execution was cancelled before it was let in.
    Cancelled,
    /// The execution has to ask again later.
    Blocked,
}

impl ServiceView {
    /// An interrupt and an execution are never under way together.
    pub open spec fn exclusive(self) -> bool {
        self.interrupting ==> self.executing == 0
    }

    /// Nothing is under way.
    pub open spec fn idle(self) -> bool {
        self.executing == 0 && !self.interrupting
    }

    /// The answer to an execution that asks to be let in. One that is cancelled has nothing to
    /// wait for.
    pub open spec fn admission(self, cancelled: bool) -> Admission {
        if cancelled {
            Admission::Cancelled
        } else if self.interrupting || self.executing >= usize::MAX {
            Admission::Blocked
        } else {
            Admission::Granted
        }
    }

    /// One more execution is under way.
    pub open spec fn admitted(self) -> ServiceView {
        ServiceView { executing: self.executing + 1, ..self }
    }

    /// An execution is over; if it started a cell, that cell is live.
    pub open spec fn executed(self, started: Option<Seq<char>>) -> ServiceView {
        ServiceView {
            gates: match started {
                Some(cell_id) => self.gates.insert(cell_id, fresh_gate()),
                None => self.gates,
            },
            executing: (self.executing - 1) as nat,
            ..self
        }
    }

    /// The cell's calls may be dispatched, if the cell is live.
    pub open spec fn marked_ready(
        self,
        cell_id: Seq<char>,
        originating_item_id: Option<Seq<char>>,
    ) -> ServiceView {
        if self.gates.contains_key(cell_id) {
            ServiceView {
                gates: self.gates.insert(cell_id, GateView { ready: true, originating_item_id }),
                ..self
            }
        } else {
            self
        }
    }

    /// The cell is no longer live.
    pub open spec fn closed(self, cell_id: Seq<char>) -> ServiceView {
        ServiceView { gates: self.gates.remove(cell_id), ..self }
    }

    /// The runtime has answered about a cell.
    pub open spec fn observed(
        self,
        cell_id: Seq<char>,
        reply: Result<OutcomeView, Seq<char>>,
    ) -> ServiceView {
        if last_word(reply) {
            self.closed(cell_id)
        } else {
            self
        }
    }

    /// An execution that was let in has come as far as `task`.
    pub open spec fn settled(self, task: TaskView) -> (ServiceView, ExecutionView) {
        match task {
            TaskView::AwaitBarrier { .. } => (self, ExecutionView::Waiting(task)),
            TaskView::Over(Ok(started)) => (
                self.executed(Some(started.cell_id)),
                ExecutionView::Done(Ok(started)),
            ),
            TaskView::Over(Err(error)) => (self.executed(None), ExecutionView::Done(Err(error))),
        }
    }

    /// An interrupt is under way.
    pub open spec fn interrupt_begun(self) -> ServiceView {
        ServiceView { interrupting: true, ..self }
    }

    /// The interrupt is over.
    pub open spec fn interrupt_ended(self) -> ServiceView {
        ServiceView { interrupting: false, ..self }
    }

    /// The runtime has answered about each of `cells`, in that order.
    pub open spec fn all_observed(
        self,
        cells: Seq<Seq<char>>,
        replies: Seq<Result<OutcomeView, Seq<char>>>,
    ) -> ServiceView
        decreases cells.len(),
    {
        if cells.len() == 0 {
            self
        } else {
            self.all_observed(cells.drop_last(), replies.drop_last()).observed(
                cells.last(),
                replies.last(),
            )
        }
    }

    /// No cell is live any more.
    pub open spec fn emptied(self) -> ServiceView {
        ServiceView { gates: Map::empty(), ..self }
    }
}

/// How far an execution has come.
#[derive(Debug)]
pub enum Execution {
    /// It was not let in yet; here is its request back.
    Blocked(ExecuteRequest),
    /// It is under way and has to meet other tasks first.
    Waiting(ExecuteTask),
    /// It is over.
    Done(Result<StartedCell, String>),
}

/// An `Execution` with its strings read as texts.
pub enum ExecutionView {
    Blocked(ExecuteRequest),
    Waiting(TaskView),
    Done(Result<StartedView, Seq<char>>),
}

impl View for Execution {
    type V = ExecutionView;

    open spec fn view(&self) -> ExecutionView {
        match *self {
            Execution::Blocked(request) => ExecutionView::Blocked(request),
            Execution::Waiting(task) => ExecutionView::Waiting(task@),
            Execution::Done(Ok(started)) => ExecutionView::Done(Ok(started@)),
            Execution::Done(Err(error)) => ExecutionView::Done(Err(error@)),
        }
    }
}

/// The answer to an execution that was cancelled before it was let in.
pub open spec fn execution_cancelled() -> ExecutionView {
    ExecutionView::Done(Err("code mode execution cancelled"@))
}

/// An execution that is asked for takes the service and its session to `after` and
/// `session_after` and comes to `progress`: it runs only if it is let in.
pub open spec fn execution_asked<S: CodeModeSession>(
    service: ServiceView,
    session: S,
    request: ExecuteRequest,
    cancelled: bool,
    after: ServiceView,
    session_after: S,
    progress: ExecutionView,
) -> bool {
    match service.admission(cancelled) {
        Admission::Blocked => {
            &&& after == service
            &&& session_after == session
            &&& progress == ExecutionView::Blocked(request)
        },
        Admission::Cancelled => {
            &&& after == service
            &&& session_after == session
            &&& progress == execution_cancelled()
        },
        Admission::Granted => exists|task: TaskView| #[trigger]
            session.executes(request, session_after, task) && (after, progress)
                == service.admitted().settled(task),
    }
}

/// A cell that an interrupt has asked the session to end, and what it answered.
#[derive(Debug)]
pub struct InterruptedCell {
    pub cell_id: CellId,
    pub reply: Result<WaitOutcome, String>,
}

/// The names of the cells that an interrupt has asked the session to end.
pub open spec fn interrupted_names(cells: Seq<InterruptedCell>) -> Seq<Seq<char>> {
    cells.map_values(|cell: InterruptedCell| cell.cell_id@)
}

/// What the session answered of each of them.
pub open spec fn interrupted_replies(cells: Seq<InterruptedCell>) -> Seq<
    Result<OutcomeView, Seq<char>>,
> {
    cells.map_values(|cell: InterruptedCell| reply_view(cell.reply))
}

/// The names of a list of cells.
pub open spec fn cell_names(cells: Seq<CellId>) -> Seq<Seq<char>> {
    cells.map_values(|cell_id: CellId| cell_id@)
}

/// The cell that an outcome speaks of will say nothing more.
pub open spec fn terminal(outcome: OutcomeView) -> bool {
    match outcome {
        OutcomeView::MissingCell(_) => true,
        OutcomeView::LiveCell(response) => !(response is Yielded),
    }
}

/// A reply after which the runtime will say nothing more of the cell.
pub open spec fn last_word(reply: Result<OutcomeView, Seq<char>>) -> bool {
    reply matches Ok(outcome) && terminal(outcome)
}

fn is_terminal(outcome: &WaitOutcome) -> (yes: bool)
    ensures
        yes == terminal(outcome@),
{
    match outcome {
        WaitOutcome::MissingCell(_) => true,
        WaitOutcome::LiveCell(RuntimeResponse::Yielded { .. }) => false,
        WaitOutcome::LiveCell(_) => true,
    }
}

impl DispatchGate {
    spec fn state(self) -> GateView {
        GateView {
            ready: self.ready,
            originating_item_id: text_opt(self.originating_item_id),
        }
    }
}

spec fn gate_of(gates: Seq<DispatchGate>, i: int, cell_id: Seq<char>) -> bool {
    0 <= i < gates.len() && gates[i].cell_id@ == cell_id
}

spec fn gate_map(gates: Seq<DispatchGate>) -> Map<Seq<char>, GateView> {
    Map::new(
        |cell_id: Seq<char>| exists|i: int| gate_of(gates, i, cell_id),
        |cell_id: Seq<char>| gates[choose|i: int| gate_of(gates, i, cell_id)].state(),
    )
}

spec fn one_gate_per_cell(gates: Seq<DispatchGate>) -> bool {
    forall|i: int, j: int|
        0 <= i < j < gates.len() ==> (#[trigger] gates[i]).cell_id@ != (
        #[trigger] gates[j]).cell_id@
}

proof fn lemma_gate_in_map(gates: Seq<DispatchGate>, i: int)
    requires
        one_gate_per_cell(gates),
        0 <= i < gates.len(),
    ensures
        gate_map(gates).contains_key(gates[i].cell_id@),
        gate_map(gates)[gates[i].cell_id@] == gates[i].state(),
{
    let cell_id = gates[i].cell_id@;
    assert(gate_of(gates, i, cell_id));
    let k = choose|k: int| gate_of(gates, k, cell_id);
    assert(gate_of(gates, k, cell_id));
    assert(k == i);
}

/// A map is the map of `gates` if it holds each of them and nothing else.
proof fn lemma_map_of_gates(gates: Seq<DispatchGate>, map: Map<Seq<char>, GateView>)
    requires
        one_gate_per_cell(gates),
        forall|i: int|
            0 <= i < gates.len() ==> map.contains_key((#[trigger] gates[i]).cell_id@)
                && map[gates[i].cell_id@] == gates[i].state(),
        forall|cell_id: Seq<char>| #[trigger]
            map.contains_key(cell_id) ==> exists|i: int| gate_of(gates, i, cell_id),
    ensures
        gate_map(gates) == map,
{
    assert forall|cell_id: Seq<char>| gate_map(gates).contains_key(cell_id) implies #[trigger]
        map.contains_key(cell_id) && gate_map(gates)[cell_id] == map[cell_id] by {
        let i = choose|i: int| gate_of(gates, i, cell_id);
        assert(gate_of(gates, i, cell_id));
        lemma_gate_in_map(gates, i);
    }
    assert(gate_map(gates) =~= map);
}

proof fn lemma_push_gate(gates: Seq<DispatchGate>, gate: DispatchGate)
    requires
        one_gate_per_cell(gates),
        !gate_map(gates).contains_key(gate.cell_id@),
    ensures
        one_gate_per_cell(gates.push(gate)),
        gate_map(gates.push(gate)) == gate_map(gates).insert(gate.cell_id@, gate.state()),
{
    let after = gates.push(gate);
    let map = gate_map(gates).insert(gate.cell_id@, gate.state());
    assert forall|i: int| 0 <= i < gates.len() implies (#[trigger] after[i]).cell_id@
        != gate.cell_id@ && map.contains_key(after[i].cell_id@) && map[after[i].cell_id@]
        == after[i].state() by {
        lemma_gate_in_map(gates, i);
    }
    assert forall|cell_id: Seq<char>| #[trigger] map.contains_key(cell_id) implies exists|i: int|
        gate_of(after, i, cell_id) by {
        if cell_id == gate.cell_id@ {
            assert(gate_of(after, gates.len() as int, cell_id));
        } else {
            let i = choose|i: int| gate_of(gates, i, cell_id);
            assert(gate_of(after, i, cell_id));
        }
    }
    lemma_map_of_gates(after, map);
}

proof fn lemma_replace_gate(gates: Seq<DispatchGate>, at: int, gate: DispatchGate)
    requires
        one_gate_per_cell(gates),
        0 <= at < gates.len(),
        gates[at].cell_id@ == gate.cell_id@,
    ensures
        one_gate_per_cell(gates.update(at, gate)),
        gate_map(gates.update(at, gate)) == gate_map(gates).insert(gate.cell_id@, gate.state()),
        gate_map(gates).contains_key(gate.cell_id@),
{
    let after = gates.update(at, gate);
    let map = gate_map(gates).insert(gate.cell_id@, gate.state());
    lemma_gate_in_map(gates, at);
    assert(one_gate_per_cell(after)) by {
        assert forall|i: int, j: int| 0 <= i < j < after.len() implies (
        #[trigger] after[i]).cell_id@ != (#[trigger] after[j]).cell_id@ by {
            assert(gates[i].cell_id@ != gates[j].cell_id@);
        }
    }
    assert forall|i: int| 0 <= i < after.len() implies map.contains_key(
        (#[trigger] after[i]).cell_id@,
    ) && map[after[i].cell_id@] == after[i].state() by {
        lemma_gate_in_map(gates, i);
        assert(i < at ==> gates[i].cell_id@ != gates[at].cell_id@);
        assert(at < i ==> gates[at].cell_id@ != gates[i].cell_id@);
    }
    assert forall|cell_id: Seq<char>| #[trigger] map.contains_key(cell_id) implies exists|i: int|
        gate_of(after, i, cell_id) by {
        if cell_id == gate.cell_id@ {
            assert(gate_of(after, at, cell_id));
        } else {
            let i = choose|i: int| gate_of(gates, i, cell_id);
            assert(gate_of(after, i, cell_id));
        }
    }
    lemma_map_of_gates(after, map);
}

proof fn lemma_remove_gate(gates: Seq<DispatchGate>, at: int)
    requires
        one_gate_per_cell(gates),
        0 <= at < gates.len(),
    ensures
        one_gate_per_cell(gates.remove(at)),
        gate_map(gates.remove(at)) == gate_map(gates).remove(gates[at].cell_id@),
{
    let after = gates.remove(at);
    let map = gate_map(gates).remove(gates[at].cell_id@);
    assert forall|i: int| 0 <= i < after.len() implies map.contains_key(
        (#[trigger] after[i]).cell_id@,
    ) && map[after[i].cell_id@] == after[i].state() by {
        let was = if i < at {
            i
        } else {
            i + 1
        };
        assert(after[i] == gates[was]);
        lemma_gate_in_map(gates, was);
        assert(was < at ==> gates[was].cell_id@ != gates[at].cell_id@);
        assert(at < was ==> gates[at].cell_id@ != gates[was].cell_id@);
    }
    assert(one_gate_per_cell(after)) by {
        assert forall|i: int, j: int| 0 <= i < j < after.len() implies (
        #[trigger] after[i]).cell_id@ != (#[trigger] after[j]).cell_id@ by {
            let was_i = if i < at {
                i
            } else {
                i + 1
            };
            let was_j = if j < at {
                j
            } else {
                j + 1
            };
            assert(gates[was_i].cell_id@ != gates[was_j].cell_id@);
        }
    }
    assert forall|cell_id: Seq<char>| #[trigger] map.contains_key(cell_id) implies exists|i: int|
        gate_of(after, i, cell_id) by {
        let i = choose|i: int| gate_of(gates, i, cell_id);
        assert(i != at);
        let now = if i < at {
            i
        } else {
            i - 1
        };
        assert(after[now] == gates[i]);
        assert(gate_of(after, now, cell_id));
    }
    lemma_map_of_gates(after, map);
}

/// As many cells are live as there are gates.
proof fn lemma_gate_count(gates: Seq<DispatchGate>)
    requires
        one_gate_per_cell(gates),
    ensures
        gate_map(gates).dom().finite(),
        gate_map(gates).dom().len() == gates.len(),
    decreases gates.len(),
{
    if gates.len() == 0 {
        assert(gate_map(gates).dom() =~= Set::empty());
    } else {
        let last = gates.len() - 1;
        lemma_gate_in_map(gates, last);
        lemma_remove_gate(gates, last);
        lemma_gate_count(gates.remove(last));
        let cell_id = gates[last].cell_id@;
        assert(gate_map(gates).dom() =~= gate_map(gates).remove(cell_id).dom().insert(cell_id));
    }
}

impl<S> View for CodeModeService<S> {
    type V = ServiceView;

    closed spec fn view(&self) -> ServiceView {
        ServiceView {
            gates: gate_map(self.gates@),
            executing: self.executing as nat,
            interrupting: self.interrupting,
        }
    }
}

impl<S: CodeModeSession> CodeModeService<S> {
    /// There is one gate per live cell, and executions and interrupts exclude one another.
    pub closed spec fn wf(&self) -> bool {
        &&& one_gate_per_cell(self.gates@)
        &&& self.interrupting ==> self.executing == 0
    }

    /// The session that every cell runs in.
    pub closed spec fn runtime(&self) -> S {
        self.session
    }

    /// The session that every cell runs in.
    pub fn session(&self) -> (session: &S)
        ensures
            *session == self.runtime(),
    {
        &self.session
    }

    /// A service over `session`, in which no cell is live and nothing is under way.
    pub fn new(session: S) -> (service: Self)
        ensures
            service.wf(),
            service.runtime() == session,
            service@ == (ServiceView { gates: Map::empty(), executing: 0, interrupting: false }),
    {
        let service = CodeModeService {
            session,
            gates: Vec::new(),
            executing: 0,
            interrupting: false,
        };
        assert(service@.gates =~= Map::empty());
        service
    }

    /// A service over a handle on the session that `provider` hands out.
    pub fn from_provider<T>(provider: &TestCodeModeSessionProvider<T>) -> (made: Result<
        Self,
        String,
    >) where S: From<Arc<T>>
        ensures
            made matches Ok(service) && {
                &&& service.wf()
                &&& call_ensures(<S as From<Arc<T>>>::from, (provider.session,), service.runtime())
                &&& service@ == (ServiceView {
                    gates: Map::empty(),
                    executing: 0,
                    interrupting: false,
                })
            },
    {
        match provider.create_session(()) {
            Ok(session) => Ok(CodeModeService::new(S::from(session))),
            Err(error) => Err(error),
        }
    }

    fn position(&self, cell_id: &CellId) -> (at: Option<usize>)
        requires
            self.wf(),
        ensures
            match at {
                Some(at) => at < self.gates.len() && self.gates[at as int].cell_id@ == cell_id@
                    && self@.gates.contains_key(cell_id@),
                None => !self@.gates.contains_key(cell_id@),
            },
    {
        let mut i: usize = 0;
        while i < self.gates.len()
            invariant
                self.wf(),
                i <= self.gates.len(),
                forall|k: int| 0 <= k < i ==> (#[trigger] self.gates[k]).cell_id@ != cell_id@,
            decreases self.gates.len() - i,
        {
            if self.gates[i].cell_id.value == cell_id.value {
                proof {
                    lemma_gate_in_map(self.gates@, i as int);
                }
                return Some(i);
            }
            i += 1;
        }
        assert(forall|k: int| !gate_of(self.gates@, k, cell_id@));
        None
    }

    /// Whether an execution is under way.
    pub fn is_executing(&self) -> (yes: bool)
        ensures
            yes == (self@.executing > 0),
    {
        self.executing > 0
    }

    /// Whether an interrupt is under way.
    pub fn is_interrupting(&self) -> (yes: bool)
        ensures
            yes == self@.interrupting,
    {
        self.interrupting
    }

    /// Lets an execution in, unless it is cancelled or an interrupt is under way.
    pub fn begin_execute(&mut self, cancelled: bool) -> (admission: Admission)
        requires
            old(self).wf(),
        ensures
            final(self).wf(),
            final(self).runtime() == old(self).runtime(),
            admission == old(self)@.admission(cancelled),
            final(self)@ == if admission == Admission::Granted {
                old(self)@.admitted()
            } else {
                old(self)@
            },
    {
        if cancelled {
            Admission::Cancelled
        } else if self.interrupting || self.executing == usize::MAX {
            Admission::Blocked
        } else {
            self.executing = self.executing + 1;
            Admission::Granted
        }
    }

    /// Ends an execution that was let in; the cell that it started, if any, goes live.
    pub fn finish_execute(&mut self, started: Option<&CellId>)
        requires
            old(self).wf(),
            old(self)@.executing > 0,
        ensures
            final(self).wf(),
            final(self).runtime() == old(self).runtime(),
            final(self)@ == old(self)@.executed(
                match started {
                    Some(cell_id) => Some(cell_id@),
                    None => None,
                },
            ),
    {
        if let Some(cell_id) = started {
            let gate = DispatchGate {
                cell_id: cell_id.clone(),
                ready: false,
                originating_item_id: None,
            };
            match self.position(cell_id) {
                Some(at) => {
                    proof {
                        lemma_replace_gate(self.gates@, at as int, gate);
                    }
                    self.gates[at] = gate;
                },
                None => {
                    proof {
                        lemma_push_gate(self.gates@, gate);
                    }
                    self.gates.push(gate);
                },
            }
        }
        self.executing = self.executing - 1;
    }

    /// Lets the cell's calls be dispatched. A cell that is no longer live stays so.
    pub fn mark_cell_ready_for_dispatch(
        &mut self,
        cell_id: &CellId,
        originating_item_id: Option<String>,
    )
        requires
            old(self).wf(),
        ensures
            final(self).wf(),
            final(self).runtime() == old(self).runtime(),
            final(self)@ == old(self)@.marked_ready(
                cell_id@,
                text_opt(originating_item_id),
            ),
    {
        if let Some(at) = self.position(cell_id) {
            let gate = DispatchGate { cell_id: cell_id.clone(), ready: true, originating_item_id };
            proof {
                lemma_replace_gate(self.gates@, at as int, gate);
            }
            self.gates[at] = gate;
        }
    }

    /// Takes note of what the runtime answered about a cell: once the answer is the last one,
    /// the cell is no longer live.
    pub fn observe_reply(&mut self, cell_id: &CellId, reply: &Result<WaitOutcome, String>)
        requires
            old(self).wf(),
        ensures
            final(self).wf(),
            final(self).runtime() == old(self).runtime(),
            final(self)@ == old(self)@.observed(cell_id@, reply_view(*reply)),
    {
        if let Ok(outcome) = reply {
            if is_terminal(outcome) {
                match self.position(cell_id) {
                    Some(at) => {
                        proof {
                            lemma_remove_gate(self.gates@, at as int);
                        }
                        self.gates.remove(at);
                    },
                    None => {
                        assert(self@.gates.remove(cell_id@) =~= self@.gates);
                    },
                }
            }
        }
    }

    /// Asks the session to end a cell, and takes note of its answer.
    pub fn terminate_cell(&mut self, cell_id: CellId) -> (reply: Result<WaitOutcome, String>)
        requires
            old(self).wf(),
        ensures
            final(self).wf(),
            old(self).runtime().terminates(cell_id@, final(self).runtime(), reply_view(reply)),
            final(self)@ == old(self)@.observed(cell_id@, reply_view(reply)),
    {
        let reply = self.session.terminate(cell_id.clone());
        self.observe_reply(&cell_id, &reply);
        reply
    }

    /// Asks the session to wait for a cell, and takes note of its answer.
    pub fn wait_for_cell(&mut self, request: WaitRequest) -> (reply: Result<WaitOutcome, String>)
        requires
            old(self).wf(),
        ensures
            final(self).wf(),
            old(self).runtime().waits(request.cell_id@, final(self).runtime(), reply_view(reply)),
            final(self)@ == old(self)@.observed(request.cell_id@, reply_view(reply)),
    {
        let cell_id = request.cell_id.clone();
        let reply = self.session.wait(request);
        self.observe_reply(&cell_id, &reply);
        reply
    }

    fn settle(&mut self, task: ExecuteTask) -> (progress: Execution)
        requires
            old(self).wf(),
            old(self)@.executing > 0,
        ensures
            final(self).wf(),
            final(self).runtime() == old(self).runtime(),
            (final(self)@, progress@) == old(self)@.settled(task@),
    {
        match task {
            ExecuteTask::Over(Ok(started)) => {
                self.finish_execute(Some(&started.cell_id));
                Execution::Done(Ok(started))
            },
            ExecuteTask::Over(Err(error)) => {
                self.finish_execute(None);
                Execution::Done(Err(error))
            },
            waiting => Execution::Waiting(waiting),
        }
    }

    /// Runs `request` on the session, unless the execution is cancelled or an interrupt is under
    /// way: then the session hears nothing of it.
    pub fn execute_unless(&mut self, request: ExecuteRequest, cancelled: bool) -> (progress:
        Execution)
        requires
            old(self).wf(),
        ensures
            final(self).wf(),
            execution_asked(
                old(self)@,
                old(self).runtime(),
                request,
                cancelled,
                final(self)@,
                final(self).runtime(),
                progress@,
            ),
    {
        match self.begin_execute(cancelled) {
            Admission::Blocked => Execution::Blocked(request),
            Admission::Cancelled => Execution::Done(
                Err("code mode execution cancelled".to_string()),
            ),
            Admission::Granted => {
                let task = self.session.execute(request);
                self.settle(task)
            },
        }
    }

    /// Runs `request` as `execute_unless` does, going by what `token` says at the time. The token
    /// is asked once; what it says is left open, as it may be raised at any time.
    pub fn execute(&mut self, request: ExecuteRequest, token: &CancellationToken) -> (progress:
        Execution)
        requires
            old(self).wf(),
        ensures
            final(self).wf(),
            exists|cancelled: bool| #[trigger]
                execution_asked(
                    old(self)@,
                    old(self).runtime(),
                    request,
                    cancelled,
                    final(self)@,
                    final(self).runtime(),
                    progress@,
                ) && call_ensures(CancellationToken::is_cancelled, (token,), cancelled),
    {
        let cancelled = token.is_cancelled();
        self.execute_unless(request, cancelled)
    }

    /// Carries an execution on after the rendezvous it was waiting for.
    pub fn resume_execute(&mut self, task: ExecuteTask) -> (progress: Execution)
        requires
            old(self).wf(),
            old(self)@.executing > 0,
        ensures
            final(self).wf(),
            final(self).runtime() == old(self).runtime(),
            (final(self)@, progress@) == old(self)@.settled(resumed(task@)),
    {
        self.settle(task.resume())
    }

    /// The live cells, each once.
    pub fn active_cells(&self) -> (cells: Vec<CellId>)
        requires
            self.wf(),
        ensures
            cell_names(cells@).no_duplicates(),
            cell_names(cells@).to_set() == self@.gates.dom(),
            cells@.len() == self@.gates.dom().len(),
    {
        let mut cells: Vec<CellId> = Vec::new();
        let mut i: usize = 0;
        while i < self.gates.len()
            invariant
                self.wf(),
                i <= self.gates.len(),
                cells.len() == i,
                forall|k: int| 0 <= k < i ==> #[trigger] cells[k] == self.gates[k].cell_id,
            decreases self.gates.len() - i,
        {
            cells.push(self.gates[i].cell_id.clone());
            i += 1;
        }
        proof {
            let names = cell_names(cells@);
            lemma_gate_count(self.gates@);
            assert forall|k: int, l: int|
                0 <= k < names.len() && 0 <= l < names.len() && k != l implies names[k]
                != names[l] by {
                assert(k < l ==> self.gates[k].cell_id@ != self.gates[l].cell_id@);
                assert(l < k ==> self.gates[l].cell_id@ != self.gates[k].cell_id@);
            }
            assert forall|cell_id: Seq<char>|
                names.to_set().contains(cell_id) <==> self@.gates.dom().contains(cell_id) by {
                if names.contains(cell_id) {
                    let k = names.index_of(cell_id);
                    lemma_gate_in_map(self.gates@, k);
                }
                if self@.gates.dom().contains(cell_id) {
                    let k = choose|k: int| gate_of(self.gates@, k, cell_id);
                    assert(names[k] == cell_id);
                }
            }
            assert(names.to_set() =~= self@.gates.dom());
        }
        cells
    }

    /// Whether the calls of a cell may be dispatched.
    pub fn is_ready_for_dispatch(&self, cell_id: &CellId) -> (ready: bool)
        requires
            self.wf(),
        ensures
            ready == (self@.gates.contains_key(cell_id@) && self@.gates[cell_id@].ready),
    {
        match self.position(cell_id) {
            Some(at) => {
                proof {
                    lemma_gate_in_map(self.gates@, at as int);
                }
                self.gates[at].ready
            },
            None => false,
        }
    }

    /// Starts an interrupt, which has to end the cells given back. It has to wait (`None`) while
    /// an execution is under way, whose cell it could not see yet, or another interrupt is.
    pub fn begin_interrupt(&mut self) -> (cells: Option<Vec<CellId>>)
        requires
            old(self).wf(),
        ensures
            final(self).wf(),
            final(self).runtime() == old(self).runtime(),
            cells is Some <==> old(self)@.idle(),
            match cells {
                Some(cells) => {
                    &&& final(self)@ == old(self)@.interrupt_begun()
                    &&& cell_names(cells@).no_duplicates()
                    &&& cell_names(cells@).to_set() == old(self)@.gates.dom()
                    &&& cells@.len() == old(self)@.gates.dom().len()
                },
                None => final(self)@ == old(self)@,
            },
    {
        if self.executing > 0 || self.interrupting {
            return None;
        }
        let cells = self.active_cells();
        self.interrupting = true;
        Some(cells)
    }

    /// Ends the interrupt that is under way.
    pub fn finish_interrupt(&mut self)
        requires
            old(self).wf(),
            old(self)@.interrupting,
        ensures
            final(self).wf(),
            final(self).runtime() == old(self).runtime(),
            final(self)@ == old(self)@.interrupt_ended(),
    {
        self.interrupting = false;
    }

    /// Asks the session to end every live cell, once, and tells what it answered of each. A cell
    /// of which that was the last word is no longer live. Nothing happens (`None`) while an
    /// execution or another interrupt is under way.
    pub fn interrupt_active_cells(&mut self) -> (interrupted: Option<Vec<InterruptedCell>>)
        requires
            old(self).wf(),
        ensures
            final(self).wf(),
            interrupted is Some <==> old(self)@.idle(),
            match interrupted {
                Some(cells) => {
                    let names = interrupted_names(cells@);
                    let replies = interrupted_replies(cells@);
                    &&& names.no_duplicates()
                    &&& names.to_set() == old(self)@.gates.dom()
                    &&& names.len() == old(self)@.gates.dom().len()
                    &&& terminates_all(old(self).runtime(), names, final(self).runtime(), replies)
                    &&& final(self)@ == old(self)@.all_observed(names, replies)
                },
                None => final(self)@ == old(self)@ && final(self).runtime() == old(self).runtime(),
            },
    {
        let ghost before = self@;
        let ghost unasked = self.session;
        let cells = match self.begin_interrupt() {
            Some(cells) => cells,
            None => {
                return None;
            },
        };
        let ghost names = cell_names(cells@);
        let mut interrupted: Vec<InterruptedCell> = Vec::new();
        let mut i: usize = 0;
        assert(names.take(0) =~= Seq::empty());
        while i < cells.len()
            invariant
                self.wf(),
                i <= cells.len(),
                names == cell_names(cells@),
                interrupted.len() == i,
                interrupted_names(interrupted@) == names.take(i as int),
                terminates_all(
                    unasked,
                    names.take(i as int),
                    self.session,
                    interrupted_replies(interrupted@),
                ),
                self@ == before.all_observed(
                    names.take(i as int),
                    interrupted_replies(interrupted@),
                ).interrupt_begun(),
            decreases cells.len() - i,
        {
            let ghost replies = interrupted_replies(interrupted@);
            let ghost asked = self.session;
            let reply = self.terminate_cell(cells[i].clone());
            proof {
                assert(names.take(i + 1).drop_last() =~= names.take(i as int));
                assert(names.take(i + 1).last() == cells[i as int]@);
            }
            interrupted.push(InterruptedCell { cell_id: cells[i].clone(), reply });
            proof {
                let longer = interrupted_replies(interrupted@);
                assert(longer =~= replies.push(reply_view(reply)));
                assert(longer.drop_last() =~= replies);
                assert(asked.terminates(names.take(i + 1).last(), self.session, longer.last()));
                assert(interrupted_names(interrupted@) =~= names.take(i + 1));
            }
            i += 1;
        }
        self.finish_interrupt();
        proof {
            assert(names.take(i as int) =~= names);
            let replies = interrupted_replies(interrupted@);
            lemma_live_after_replies(before, names, replies, Seq::empty());
            assert(self@ =~= before.all_observed(names, replies));
        }
        Some(interrupted)
    }
}

/// In every state of a service an interrupt and an execution are never under way together.
pub proof fn law_interrupt_excludes_executions<S: CodeModeSession>(service: CodeModeService<S>)
    requires
        service.wf(),
    ensures
        service@.exclusive(),
{
}

/// In every state of a service only so many cells are live, so that an interrupt comes to an end.
pub proof fn law_live_cells_are_finite<S: CodeModeSession>(service: CodeModeService<S>)
    requires
        service.wf(),
    ensures
        service@.gates.dom().finite(),
{
    lemma_gate_count(service.gates@);
}

/// Every step keeps interrupts and executions apart.
pub proof fn law_steps_keep_exclusion(
    service: ServiceView,
    cancelled: bool,
    started: Option<Seq<char>>,
    cell_id: Seq<char>,
    originating_item_id: Option<Seq<char>>,
    reply: Result<OutcomeView, Seq<char>>,
)
    requires
        service.exclusive(),
    ensures
        service.admission(cancelled) == Admission::Granted ==> service.admitted().exclusive(),
        service.executing > 0 ==> service.executed(started).exclusive(),
        service.marked_ready(cell_id, originating_item_id).exclusive(),
        service.observed(cell_id, reply).exclusive(),
        service.idle() ==> service.interrupt_begun().exclusive(),
        service.interrupt_ended().exclusive(),
{
}

/// Nothing but the end of an execution makes a cell live.
pub proof fn law_only_executions_make_cells_live(
    service: ServiceView,
    cell_id: Seq<char>,
    originating_item_id: Option<Seq<char>>,
    about: Seq<char>,
    reply: Result<OutcomeView, Seq<char>>,
)
    ensures
        service.admitted().gates == service.gates,
        service.executed(None).gates == service.gates,
        service.marked_ready(cell_id, originating_item_id).gates.dom() == service.gates.dom(),
        service.observed(about, reply).gates.dom().subset_of(service.gates.dom()),
        service.interrupt_begun().gates == service.gates,
        service.interrupt_ended().gates == service.gates,
{
    assert(service.marked_ready(cell_id, originating_item_id).gates.dom() =~= service.gates.dom());
}

/// However the session answers, what it says of a cell that it is asked to end is the last word.
pub proof fn law_every_terminate_reply_is_terminal(part: TestTerminateOutcome, cell_id: Seq<char>)
    ensures
        terminal(terminate_reply(part, cell_id)),
{
}

/// A cell of which the runtime has said its last word, because it is missing, was terminated or
/// is done, is no longer live; marking it ready does not bring it back.
pub proof fn law_closed_cells_stay_closed(
    service: ServiceView,
    cell_id: Seq<char>,
    outcome: OutcomeView,
    originating_item_id: Option<Seq<char>>,
)
    requires
        terminal(outcome),
    ensures
        ({
            let after = service.observed(cell_id, Ok(outcome));
            &&& !after.gates.contains_key(cell_id)
            &&& after.marked_ready(cell_id, originating_item_id) == after
        }),
{
}

proof fn lemma_live_after_replies(
    service: ServiceView,
    cells: Seq<Seq<char>>,
    replies: Seq<Result<OutcomeView, Seq<char>>>,
    cell_id: Seq<char>,
)
    requires
        cells.len() == replies.len(),
    ensures
        service.all_observed(cells, replies).gates.contains_key(cell_id) <==> (
        service.gates.contains_key(cell_id) && forall|i: int|
            0 <= i < cells.len() && #[trigger] cells[i] == cell_id ==> !last_word(replies[i])),
        service.all_observed(cells, replies).gates.contains_key(cell_id) ==> service.all_observed(
            cells,
            replies,
        ).gates[cell_id] == service.gates[cell_id],
        service.all_observed(cells, replies).executing == service.executing,
        service.all_observed(cells, replies).interrupting == service.interrupting,
    decreases cells.len(),
{
    if cells.len() > 0 {
        let fewer = cells.drop_last();
        lemma_live_after_replies(service, fewer, replies.drop_last(), cell_id);
        let last = cells.len() - 1;
        assert(forall|i: int| 0 <= i < last ==> #[trigger] cells[i] == fewer[i]);
        assert(cells[last] == cells.last());
    }
}

/// After an interrupt exactly those cells are still live of which the session has not said its
/// last word, and they stand as they stood.
pub proof fn law_interrupt_closes_ended_cells(
    service: ServiceView,
    cells: Seq<Seq<char>>,
    replies: Seq<Result<OutcomeView, Seq<char>>>,
    cell_id: Seq<char>,
)
    requires
        cells.len() == replies.len(),
        cells.to_set() == service.gates.dom(),
    ensures
        service.all_observed(cells, replies).gates.contains_key(cell_id) <==> (cells.contains(
            cell_id,
        ) && forall|i: int|
            0 <= i < cells.len() && #[trigger] cells[i] == cell_id ==> !last_word(replies[i])),
        service.all_observed(cells, replies).gates.contains_key(cell_id) ==> service.all_observed(
            cells,
            replies,
        ).gates[cell_id] == service.gates[cell_id],
        service.all_observed(cells, replies).executing == service.executing,
        service.all_observed(cells, replies).interrupting == service.interrupting,
{
    lemma_live_after_replies(service, cells, replies, cell_id);
    assert(cells.to_set().contains(cell_id) <==> cells.contains(cell_id));
}

/// An interrupt of a session that plays a fixed part ends every live cell by its name, counts
/// each of them once and leaves none live.
pub proof fn law_interrupt_ends_every_cell(
    service: ServiceView,
    session: TestCodeModeSession,
    cells: Seq<Seq<char>>,
    after: TestCodeModeSession,
    replies: Seq<Result<OutcomeView, Seq<char>>>,
)
    requires
        cells.to_set() == service.gates.dom(),
        terminates_all(session, cells, after, replies),
    ensures
        after == session.after_terminates(cells.len()),
        forall|i: int|
            0 <= i < cells.len() ==> #[trigger] replies[i] == Ok::<OutcomeView, Seq<char>>(
                terminate_reply(session.terminate_outcome, cells[i]),
            ),
        service.all_observed(cells, replies) == service.emptied(),
{
    let left = service.all_observed(cells, replies);
    law_each_cell_is_ended_by_name(session, cells, after, replies);
    assert forall|cell_id: Seq<char>| !left.gates.contains_key(cell_id) by {
        law_interrupt_closes_ended_cells(service, cells, replies, cell_id);
        if cells.contains(cell_id) {
            let k = cells.index_of(cell_id);
            assert(cells[k] == cell_id && last_word(replies[k]));
        }
    }
    lemma_live_after_replies(service, cells, replies, Seq::empty());
    assert(left =~= service.emptied());
}

/// After such an interrupt no cell is ended again, even if one is marked ready in between.
pub proof fn law_interrupted_cells_are_ended_once(
    service: ServiceView,
    session: TestCodeModeSession,
    cells: Seq<Seq<char>>,
    after: TestCodeModeSession,
    replies: Seq<Result<OutcomeView, Seq<char>>>,
    cell_id: Seq<char>,
    originating_item_id: Option<Seq<char>>,
    again: Seq<Seq<char>>,
    last: TestCodeModeSession,
    more: Seq<Result<OutcomeView, Seq<char>>>,
)
    requires
        cells.to_set() == service.gates.dom(),
        terminates_all(session, cells, after, replies),
        again.to_set() == service.all_observed(cells, replies).marked_ready(
            cell_id,
            originating_item_id,
        ).gates.dom(),
        terminates_all(after, again, last, more),
    ensures
        again.len() == 0,
        last == after,
{
    law_interrupt_ends_every_cell(service, session, cells, after, replies);
    if again.len() > 0 {
        assert(again.to_set().contains(again[0]));
    }
}

/// While an execution waits for others, no interrupt can start. Once its cell has started, the
/// cell is live and an interrupt that can then start will end it.
pub proof fn law_interrupt_waits_until_cell_is_live(
    service: ServiceView,
    session: TestCodeModeSession,
    request: ExecuteRequest,
    first: ServiceView,
    asked: TestCodeModeSession,
    progress: ExecutionView,
)
    requires
        service.idle(),
        session.execute_barrier is Some,
        execution_asked(service, session, request, false, first, asked, progress),
    ensures
        ({
            let (second, later) = first.settled(resumed(progress->Waiting_0));
            let (third, last) = second.settled(resumed(later->Waiting_0));
            &&& asked.execute_count == counted(session.execute_count)
            &&& progress is Waiting
            &&& !first.idle()
            &&& later is Waiting
            &&& !second.idle()
            &&& last matches ExecutionView::Done(Ok(started))
            &&& started.cell_id == session.cell_id@
            &&& third.idle()
            &&& third.gates == service.gates.insert(session.cell_id@, fresh_gate())
        }),
{
}

/// An execution that is cancelled before it is let in never reaches the session, and is told so
/// at once, even while an interrupt is under way.
pub proof fn law_cancelled_execution_never_runs<S: CodeModeSession>(
    service: ServiceView,
    session: S,
    request: ExecuteRequest,
    after: ServiceView,
    session_after: S,
    progress: ExecutionView,
)
    requires
        execution_asked(service, session, request, true, after, session_after, progress),
    ensures
        after == service,
        session_after == session,
        progress == execution_cancelled(),
{
}

/// A new service has no live cell, and nothing is under way in it.
pub proof fn law_new_service_is_at_rest<S: CodeModeSession>(session: S, service: CodeModeService<S>)
    requires
        call_ensures(CodeModeService::<S>::new, (session,), service),
    ensures
        service.wf(),
        service.runtime() == session,
        forall|cell_id: Seq<char>| !service@.gates.contains_key(cell_id),
        service@.executing == 0,
        !service@.interrupting,
{
}

/// A service over what a provider hands out has that very session, no live cell and nothing
/// under way.
pub proof fn law_provided_service_is_at_rest<S: CodeModeSession + From<Arc<T>>, T>(
    provider: TestCodeModeSessionProvider<T>,
    made: Result<CodeModeService<S>, String>,
)
    requires
        call_ensures(CodeModeService::<S>::from_provider::<T>, (&provider,), made),
    ensures
        made is Ok,
        made->Ok_0.wf(),
        call_ensures(<S as From<Arc<T>>>::from, (provider.session,), made->Ok_0.runtime()),
        forall|cell_id: Seq<char>| !made->Ok_0@.gates.contains_key(cell_id),
        made->Ok_0@.executing == 0,
        !made->Ok_0@.interrupting,
{
}

/// What a service says of itself is how it stands.
pub proof fn law_service_tells_how_it_stands<S: CodeModeSession>(
    service: CodeModeService<S>,
    executing: bool,
    interrupting: bool,
    session: &S,
    cell_id: CellId,
    ready: bool,
)
    requires
        call_ensures(CodeModeService::<S>::is_executing, (&service,), executing),
        call_ensures(CodeModeService::<S>::is_interrupting, (&service,), interrupting),
        call_ensures(CodeModeService::<S>::session, (&service,), session),
        call_ensures(CodeModeService::<S>::is_ready_for_dispatch, (&service, &cell_id), ready),
    ensures
        executing <==> service@.executing != 0,
        interrupting <==> service@.interrupting,
        *session == service.runtime(),
        ready ==> service@.gates.contains_key(cell_id.value@),
        service@.gates.contains_key(cell_id.value@) ==> ready
            == service@.gates[cell_id.value@].ready,
{
}

/// The live cells are listed once each, and nothing else is.
pub proof fn law_live_cells_are_listed_once<S: CodeModeSession>(
    service: CodeModeService<S>,
    cells: Vec<CellId>,
)
    requires
        call_ensures(CodeModeService::<S>::active_cells, (&service,), cells),
    ensures
        forall|i: int|
            0 <= i < cells@.len() ==> service@.gates.contains_key(
                (#[trigger] cells@[i]).value@,
            ),
        forall|cell_id: Seq<char>| #[trigger]
            service@.gates.contains_key(cell_id) ==> exists|i: int|
                0 <= i < cells@.len() && (#[trigger] cells@[i]).value@ == cell_id,
        forall|i: int, j: int|
            0 <= i < j < cells@.len() ==> (#[trigger] cells@[i]).value@ != (
            #[trigger] cells@[j]).value@,
{
    lemma_listed_once(cells@, service@.gates.dom());
}

proof fn lemma_listed_once(cells: Seq<CellId>, live: Set<Seq<char>>)
    requires
        cell_names(cells).no_duplicates(),
        cell_names(cells).to_set() == live,
    ensures
        forall|i: int| 0 <= i < cells.len() ==> live.contains((#[trigger] cells[i]).value@),
        forall|cell_id: Seq<char>| #[trigger]
            live.contains(cell_id) ==> exists|i: int|
                0 <= i < cells.len() && (#[trigger] cells[i]).value@ == cell_id,
        forall|i: int, j: int|
            0 <= i < j < cells.len() ==> (#[trigger] cells[i]).value@ != (
            #[trigger] cells[j]).value@,
{
    let names = cell_names(cells);
    assert forall|i: int| 0 <= i < cells.len() implies live.contains(
        (#[trigger] cells[i]).value@,
    ) by {
        assert(names[i] == cells[i].value@);
        assert(names.to_set().contains(names[i]));
    }
    assert forall|cell_id: Seq<char>| #[trigger] live.contains(cell_id) implies exists|i: int|
        0 <= i < cells.len() && (#[trigger] cells[i]).value@ == cell_id by {
        assert(names.to_set().contains(cell_id));
        let i = names.index_of(cell_id);
        assert(cells[i].value@ == cell_id);
    }
    assert forall|i: int, j: int| 0 <= i < j < cells.len() implies (#[trigger] cells[i]).value@ != (
    #[trigger] cells[j]).value@ by {
        assert(names[i] != names[j]);
    }
}

/// An execution is let in unless it is cancelled, an interrupt is under way or no more can be
/// counted; being cancelled comes first. Letting it in adds one to the executions under way, and
/// nothing else changes.
pub proof fn law_executions_are_let_in_one_by_one<S: CodeModeSession>(
    service: &mut CodeModeService<S>,
    cancelled: bool,
    admission: Admission,
)
    requires
        call_ensures(CodeModeService::<S>::begin_execute, (service, cancelled), admission),
    ensures
        admission is Cancelled <==> cancelled,
        admission is Blocked <==> !cancelled && (old(service)@.interrupting || old(service)@.executing >= usize::MAX),
        final(service)@.executing == old(service)@.executing + if admission is Granted {
            1int
        } else {
            0int
        },
        final(service)@.interrupting == old(service)@.interrupting,
        final(service)@.gates == old(service)@.gates,
        final(service).runtime() == old(service).runtime(),
{
}

/// The end of an execution takes exactly one off the executions under way, so that no interrupt
/// can start while another is. The cell that it started is live and not ready; every other cell
/// stands as it stood.
pub proof fn law_executions_end_one_by_one<S: CodeModeSession>(
    service: &mut CodeModeService<S>,
    started: Option<&CellId>,
)
    requires
        old(service)@.executing > 0,
        call_ensures(CodeModeService::<S>::finish_execute, (service, started), ()),
    ensures
        final(service)@.executing + 1 == old(service)@.executing,
        old(service)@.executing >= 2 ==> !final(service)@.idle(),
        final(service)@.interrupting == old(service)@.interrupting,
        final(service).runtime() == old(service).runtime(),
        started is None ==> final(service)@.gates == old(service)@.gates,
        started matches Some(cell_id) ==> {
            &&& final(service)@.gates.contains_key(cell_id.value@)
            &&& !final(service)@.gates[cell_id.value@].ready
            &&& final(service)@.gates[cell_id.value@].originating_item_id is None
        },
        forall|other: Seq<char>|
            (started matches Some(cell_id) ==> other != cell_id.value@) ==> {
                &&& #[trigger] final(service)@.gates.contains_key(other) <==> old(service)@.gates.contains_key(other)
                &&& old(service)@.gates.contains_key(other) ==> final(service)@.gates[other]
                    == old(service)@.gates[other]
            },
{
}

/// Marking a cell ready lets its calls be dispatched if it is live, keeps the item it belongs
/// to, makes no cell live, and leaves every other cell and all else as they were.
pub proof fn law_marking_touches_one_live_cell<S: CodeModeSession>(
    service: &mut CodeModeService<S>,
    cell_id: CellId,
    originating_item_id: Option<String>,
)
    requires
        call_ensures(
            CodeModeService::<S>::mark_cell_ready_for_dispatch,
            (service, &cell_id, originating_item_id),
            (),
        ),
    ensures
        forall|other: Seq<char>| #[trigger]
            final(service)@.gates.contains_key(other) <==> old(service)@.gates.contains_key(other),
        old(service)@.gates.contains_key(cell_id.value@) ==> {
            let gate = final(service)@.gates[cell_id.value@];
            &&& gate.ready
            &&& originating_item_id is None <==> gate.originating_item_id is None
            &&& originating_item_id matches Some(item) ==> gate.originating_item_id == Some(item@)
        },
        forall|other: Seq<char>|
            other != cell_id.value@ && old(service)@.gates.contains_key(other)
                ==> #[trigger] final(service)@.gates[other] == old(service)@.gates[other],
        final(service)@.executing == old(service)@.executing,
        final(service)@.interrupting == old(service)@.interrupting,
        final(service).runtime() == old(service).runtime(),
{
}

/// A reply takes its own cell off the live ones, and no other, unless the session failed or the
/// cell still runs. All else stays as it was.
pub proof fn law_replies_close_their_own_cell<S: CodeModeSession>(
    service: &mut CodeModeService<S>,
    cell_id: CellId,
    reply: Result<WaitOutcome, String>,
)
    requires
        call_ensures(CodeModeService::<S>::observe_reply, (service, &cell_id, &reply), ()),
    ensures
        final(service)@.gates.contains_key(cell_id.value@) <==> old(service)@.gates.contains_key(
            cell_id.value@,
        ) && (reply is Err || reply matches Ok(
            WaitOutcome::LiveCell(RuntimeResponse::Yielded { .. }),
        )),
        forall|other: Seq<char>|
            other != cell_id.value@ ==> (#[trigger] final(service)@.gates.contains_key(other)
                <==> old(service)@.gates.contains_key(other)),
        forall|other: Seq<char>| #[trigger]
            final(service)@.gates.contains_key(other) ==> final(service)@.gates[other] == old(service)@.gates[other],
        final(service)@.executing == old(service)@.executing,
        final(service)@.interrupting == old(service)@.interrupting,
        final(service).runtime() == old(service).runtime(),
{
}

/// Ending a cell asks the session to end that cell, and its reply closes that cell as any reply
/// does.
pub proof fn law_ended_cells_are_asked_for_by_name<S: CodeModeSession>(
    service: &mut CodeModeService<S>,
    cell_id: CellId,
    reply: Result<WaitOutcome, String>,
)
    requires
        call_ensures(CodeModeService::<S>::terminate_cell, (service, cell_id), reply),
    ensures
        old(service).runtime().terminates(
            cell_id.value@,
            final(service).runtime(),
            reply_view(reply),
        ),
        final(service)@.gates.contains_key(cell_id.value@) <==> old(service)@.gates.contains_key(
            cell_id.value@,
        ) && (reply is Err || reply matches Ok(
            WaitOutcome::LiveCell(RuntimeResponse::Yielded { .. }),
        )),
        forall|other: Seq<char>|
            other != cell_id.value@ ==> (#[trigger] final(service)@.gates.contains_key(other)
                <==> old(service)@.gates.contains_key(other)),
        forall|other: Seq<char>| #[trigger]
            final(service)@.gates.contains_key(other) ==> final(service)@.gates[other] == old(service)@.gates[other],
        final(service)@.executing == old(service)@.executing,
        final(service)@.interrupting == old(service)@.interrupting,
{
}

/// Waiting for a cell asks the session to wait for that cell, and its reply closes that cell as
/// any reply does.
pub proof fn law_awaited_cells_are_asked_for_by_name<S: CodeModeSession>(
    service: &mut CodeModeService<S>,
    request: WaitRequest,
    reply: Result<WaitOutcome, String>,
)
    requires
        call_ensures(CodeModeService::<S>::wait_for_cell, (service, request), reply),
    ensures
        old(service).runtime().waits(
            request.cell_id.value@,
            final(service).runtime(),
            reply_view(reply),
        ),
        final(service)@.gates.contains_key(request.cell_id.value@) <==> old(service)@.gates.contains_key(request.cell_id.value@) && (reply is Err || reply matches Ok(
            WaitOutcome::LiveCell(RuntimeResponse::Yielded { .. }),
        )),
        forall|other: Seq<char>|
            other != request.cell_id.value@ ==> (#[trigger] final(service)@.gates.contains_key(
                other,
            ) <==> old(service)@.gates.contains_key(other)),
        forall|other: Seq<char>| #[trigger]
            final(service)@.gates.contains_key(other) ==> final(service)@.gates[other] == old(service)@.gates[other],
        final(service)@.executing == old(service)@.executing,
        final(service)@.interrupting == old(service)@.interrupting,
{
}

/// An interrupt starts exactly when no execution and no other interrupt is under way, whatever
/// the live cells stand like. It is given every live cell once, and changes nothing but that it
/// is under way.
pub proof fn law_interrupts_start_when_nothing_is_under_way<S: CodeModeSession>(
    service: &mut CodeModeService<S>,
    cells: Option<Vec<CellId>>,
)
    requires
        call_ensures(CodeModeService::<S>::begin_interrupt, (service,), cells),
    ensures
        cells is Some <==> old(service)@.executing == 0 && !old(service)@.interrupting,
        final(service)@.interrupting <==> old(service)@.interrupting || cells is Some,
        final(service)@.executing == old(service)@.executing,
        final(service)@.gates == old(service)@.gates,
        final(service).runtime() == old(service).runtime(),
        cells matches Some(cells) ==> {
            &&& forall|i: int|
                0 <= i < cells@.len() ==> old(service)@.gates.contains_key(
                    (#[trigger] cells@[i]).value@,
                )
            &&& forall|cell_id: Seq<char>| #[trigger]
                old(service)@.gates.contains_key(cell_id) ==> exists|i: int|
                    0 <= i < cells@.len() && (#[trigger] cells@[i]).value@ == cell_id
            &&& forall|i: int, j: int|
                0 <= i < j < cells@.len() ==> (#[trigger] cells@[i]).value@ != (
                #[trigger] cells@[j]).value@
        },
{
    if let Some(cells) = cells {
        lemma_listed_once(cells@, old(service)@.gates.dom());
    }
}

/// The end of an interrupt lets executions in again and changes nothing else.
pub proof fn law_interrupts_end<S: CodeModeSession>(service: &mut CodeModeService<S>)
    requires
        call_ensures(CodeModeService::<S>::finish_interrupt, (service,), ()),
    ensures
        !final(service)@.interrupting,
        final(service)@.executing == old(service)@.executing,
        final(service)@.gates == old(service)@.gates,
        final(service).runtime() == old(service).runtime(),
{
}

/// An interrupt runs exactly when no execution and no other interrupt is under way. It asks the
/// session to end every live cell, each by its own name and once, one after the other. A cell is
/// live afterwards exactly if it was before and the session failed or the cell still runs.
pub proof fn law_interrupts_end_every_live_cell<S: CodeModeSession>(
    service: &mut CodeModeService<S>,
    interrupted: Option<Vec<InterruptedCell>>,
)
    requires
        call_ensures(CodeModeService::<S>::interrupt_active_cells, (service,), interrupted),
    ensures
        interrupted is Some <==> old(service)@.executing == 0 && !old(service)@.interrupting,
        interrupted is None ==> final(service)@ == old(service)@ && final(service).runtime()
            == old(service).runtime(),
        final(service)@.executing == old(service)@.executing,
        final(service)@.interrupting == old(service)@.interrupting,
        interrupted matches Some(cells) ==> {
            &&& forall|i: int|
                0 <= i < cells@.len() ==> old(service)@.gates.contains_key(
                    (#[trigger] cells@[i]).cell_id.value@,
                )
            &&& forall|cell_id: Seq<char>| #[trigger]
                old(service)@.gates.contains_key(cell_id) ==> exists|i: int|
                    0 <= i < cells@.len() && (#[trigger] cells@[i]).cell_id.value@ == cell_id
            &&& forall|i: int, j: int|
                0 <= i < j < cells@.len() ==> (#[trigger] cells@[i]).cell_id.value@ != (
                #[trigger] cells@[j]).cell_id.value@
            &&& forall|i: int|
                0 <= i < cells@.len() ==> {
                    let cell = #[trigger] cells@[i];
                    final(service)@.gates.contains_key(cell.cell_id.value@) <==> (cell.reply is Err
                        || cell.reply matches Ok(
                        WaitOutcome::LiveCell(RuntimeResponse::Yielded { .. }),
                    ))
                }
            &&& forall|cell_id: Seq<char>| #[trigger]
                final(service)@.gates.contains_key(cell_id) ==> old(service)@.gates.contains_key(
                    cell_id,
                ) && final(service)@.gates[cell_id] == old(service)@.gates[cell_id]
            &&& exists|sessions: Seq<S>|
                #![trigger sessions.len()]
                sessions.len() == cells@.len() + 1 && sessions[0] == old(service).runtime()
                    && sessions[cells@.len() as int] == final(service).runtime() && forall|i: int|
                    0 <= i < cells@.len() ==> (#[trigger] sessions[i]).terminates(
                        cells@[i].cell_id.value@,
                        sessions[i + 1],
                        reply_view(cells@[i].reply),
                    )
        },
{
    if let Some(cells) = interrupted {
        let before = old(service)@;
        let after = final(service)@;
        let names = interrupted_names(cells@);
        let replies = interrupted_replies(cells@);
        assert forall|i: int| 0 <= i < cells@.len() implies before.gates.contains_key(
            (#[trigger] cells@[i]).cell_id.value@,
        ) by {
            assert(names[i] == cells@[i].cell_id.value@);
            assert(names.to_set().contains(names[i]));
        }
        assert forall|cell_id: Seq<char>| #[trigger] before.gates.contains_key(
            cell_id,
        ) implies exists|i: int|
            0 <= i < cells@.len() && (#[trigger] cells@[i]).cell_id.value@ == cell_id by {
            assert(names.to_set().contains(cell_id));
            let i = names.index_of(cell_id);
            assert(cells@[i].cell_id.value@ == cell_id);
        }
        assert forall|i: int, j: int| 0 <= i < j < cells@.len() implies (
        #[trigger] cells@[i]).cell_id.value@ != (#[trigger] cells@[j]).cell_id.value@ by {
            assert(names[i] != names[j]);
        }
        assert forall|i: int| 0 <= i < cells@.len() implies {
            let cell = #[trigger] cells@[i];
            after.gates.contains_key(cell.cell_id.value@) <==> (cell.reply is Err
                || cell.reply matches Ok(WaitOutcome::LiveCell(RuntimeResponse::Yielded { .. })))
        } by {
            let name = names[i];
            law_interrupt_closes_ended_cells(before, names, replies, name);
            assert(names.contains(name));
            assert(replies[i] == reply_view(cells@[i].reply));
            assert forall|k: int| 0 <= k < names.len() && #[trigger] names[k] == name implies k
                == i by {}
        }
        assert forall|cell_id: Seq<char>| #[trigger] after.gates.contains_key(
            cell_id,
        ) implies before.gates.contains_key(cell_id) && after.gates[cell_id]
            == before.gates[cell_id] by {
            lemma_live_after_replies(before, names, replies, cell_id);
        }
        lemma_live_after_replies(before, names, replies, Seq::empty());
        law_sessions_end_cells_in_turn(
            old(service).runtime(),
            names,
            final(service).runtime(),
            replies,
        );
        let sessions = choose|sessions: Seq<S>|
            #![trigger sessions.len()]
            sessions.len() == names.len() + 1 && sessions[0] == old(service).runtime()
                && sessions[names.len() as int] == final(service).runtime() && forall|i: int|
                0 <= i < names.len() ==> (#[trigger] sessions[i]).terminates(
                    names[i],
                    sessions[i + 1],
                    replies[i],
                );
        assert forall|i: int| 0 <= i < cells@.len() implies (#[trigger] sessions[i]).terminates(
            cells@[i].cell_id.value@,
            sessions[i + 1],
            reply_view(cells@[i].reply),
        ) by {
            assert(names[i] == cells@[i].cell_id.value@);
            assert(replies[i] == reply_view(cells@[i].reply));
        }
        assert(sessions.len() == cells@.len() + 1);
    }
}

/// What becomes of a request is up to three things. Cancelled, it is told so and nothing
/// changes; kept out, it comes back and nothing changes; let in, it goes to the session as it is,
/// once, and counts as under way until its cell has started, which is then live.
pub proof fn law_requests_run_only_if_let_in<S: CodeModeSession>(
    service: &mut CodeModeService<S>,
    request: ExecuteRequest,
    cancelled: bool,
    progress: Execution,
)
    requires
        call_ensures(CodeModeService::<S>::execute_unless, (service, request, cancelled), progress),
    ensures
        request_handled(*old(service), request, cancelled, *final(service), progress),
{
    lemma_request_handled(
        *old(service),
        request,
        cancelled,
        *final(service),
        progress,
    );
}

/// A request is handled as in `law_requests_run_only_if_let_in`, by what this very token said.
pub proof fn law_tokens_decide_on_requests<S: CodeModeSession>(
    service: &mut CodeModeService<S>,
    request: ExecuteRequest,
    token: &CancellationToken,
    progress: Execution,
)
    requires
        call_ensures(CodeModeService::<S>::execute, (service, request, token), progress),
    ensures
        exists|cancelled: bool| #[trigger]
            request_handled(*old(service), request, cancelled, *final(service), progress)
                && call_ensures(CancellationToken::is_cancelled, (token,), cancelled),
{
    let cancelled = choose|cancelled: bool| #[trigger]
        execution_asked(
            old(service)@,
            old(service).runtime(),
            request,
            cancelled,
            final(service)@,
            final(service).runtime(),
            progress@,
        ) && call_ensures(CancellationToken::is_cancelled, (token,), cancelled);
    lemma_request_handled(
        *old(service),
        request,
        cancelled,
        *final(service),
        progress,
    );
}

/// The request was cancelled, kept out or let in, and the service and its session stand
/// accordingly.
pub open spec fn request_handled<S: CodeModeSession>(
    before: CodeModeService<S>,
    request: ExecuteRequest,
    cancelled: bool,
    after: CodeModeService<S>,
    progress: Execution,
) -> bool {
    if cancelled {
        &&& after@ == before@
        &&& after.runtime() == before.runtime()
        &&& progress matches Execution::Done(Err(error))
        &&& error@ == "code mode execution cancelled"@
    } else if before@.interrupting || before@.executing >= usize::MAX {
        &&& after@ == before@
        &&& after.runtime() == before.runtime()
        &&& progress == Execution::Blocked(request)
    } else {
        &&& after@.interrupting == before@.interrupting
        &&& exists|task: TaskView| #[trigger]
            before.runtime().executes(request, after.runtime(), task) && match progress {
                Execution::Blocked(_) => false,
                Execution::Waiting(waiting) => {
                    &&& task is AwaitBarrier
                    &&& waiting@ == task
                    &&& after@.executing == before@.executing + 1
                    &&& after@.gates == before@.gates
                },
                Execution::Done(Ok(started)) => {
                    &&& task == TaskView::Over(Ok(started@))
                    &&& after@.executing == before@.executing
                    &&& after@.gates == before@.gates.insert(
                        started.cell_id.value@,
                        GateView { ready: false, originating_item_id: None },
                    )
                },
                Execution::Done(Err(error)) => {
                    &&& task == TaskView::Over(Err(error@))
                    &&& after@.executing == before@.executing
                    &&& after@.gates == before@.gates
                },
            }
    }
}

proof fn lemma_request_handled<S: CodeModeSession>(
    before: CodeModeService<S>,
    request: ExecuteRequest,
    cancelled: bool,
    after: CodeModeService<S>,
    progress: Execution,
)
    requires
        execution_asked(
            before@,
            before.runtime(),
            request,
            cancelled,
            after@,
            after.runtime(),
            progress@,
        ),
    ensures
        request_handled(before, request, cancelled, after, progress),
{
    if before@.admission(cancelled) is Granted {
        let task = choose|task: TaskView| #[trigger]
            before.runtime().executes(request, after.runtime(), task) && (after@, progress@)
                == before@.admitted().settled(task);
        assert(before.runtime().executes(request, after.runtime(), task));
    }
}

/// An execution that goes on after a rendezvous either waits for its second one, still under way
/// and with nothing changed, or is over: one execution less is under way and its cell is live.
pub proof fn law_resumed_executions_end_after_their_last_meeting<S: CodeModeSession>(
    service: &mut CodeModeService<S>,
    task: ExecuteTask,
    progress: Execution,
)
    requires
        old(service)@.executing > 0,
        task is AwaitBarrier,
        call_ensures(CodeModeService::<S>::resume_execute, (service, task), progress),
    ensures
        final(service).runtime() == old(service).runtime(),
        final(service)@.interrupting == old(service)@.interrupting,
        task->again ==> {
            &&& final(service)@ == old(service)@
            &&& progress matches Execution::Waiting(ExecuteTask::AwaitBarrier {
                barrier,
                again,
                cell_id,
            })
            &&& *barrier == *task->barrier
            &&& !again
            &&& cell_id.value@ == task->cell_id.value@
        },
        !task->again ==> {
            &&& final(service)@.executing + 1 == old(service)@.executing
            &&& final(service)@.gates == old(service)@.gates.insert(
                task->cell_id.value@,
                GateView { ready: false, originating_item_id: None },
            )
            &&& progress matches Execution::Done(Ok(started))
            &&& started.cell_id.value@ == task->cell_id.value@
        },
{
}

} // verus!
