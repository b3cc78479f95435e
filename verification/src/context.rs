//! What calls of tools run in: sessions, turns and steps.

use crate::code_mode::CodeModeService;
use crate::trace::ThreadTrace;
use std::sync::Arc;
use vstd::prelude::*;

verus! {

/// A session, as all that runs in it shares it.
#[derive(Debug)]
pub struct Session {
    pub thread_id: String,
}

/// What a session works with, which changes as it runs.
#[derive(Debug)]
pub struct SessionServices<S> {
    /// The trace, where one is kept.
    pub rollout_thread_trace: Option<ThreadTrace>,
    pub code_mode_service: CodeModeService<S>,
}

/// The turn that a call belongs to.
#[derive(Debug)]
pub struct TurnContext {
    pub sub_id: String,
}

/// The step of a turn that a call belongs to.
#[derive(Debug)]
pub struct StepContext {
    pub turn: Arc<TurnContext>,
}

impl StepContext {
    /// A step of `turn`.
    pub fn for_test(turn: Arc<TurnContext>) -> (step: Self)
        ensures
            step.turn == turn,
    {
        StepContext { turn }
    }
}

/// The files that a turn has changed so far.
#[derive(Debug)]
pub struct TurnDiffTracker {
    pub changed_files: Vec<String>,
}

impl TurnDiffTracker {
    /// Nothing has changed yet.
    pub fn new() -> (tracker: Self)
        ensures
            tracker.changed_files@ == Seq::<String>::empty(),
    {
        TurnDiffTracker { changed_files: Vec::new() }
    }
}

/// A new tracker has seen no change.
pub proof fn law_new_trackers_have_seen_nothing(tracker: TurnDiffTracker)
    requires
        call_ensures(TurnDiffTracker::new, (), tracker),
    ensures
        tracker.changed_files@.len() == 0,
{
}

} // verus!
