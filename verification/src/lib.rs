//! The bookkeeping behind dispatching tool calls: which runtime cells are live, what an
//! interrupt must still end, who is waiting on an elicitation, and what the trace of a call
//! replays to.
//!
//! Everything here is a plain state machine. Tasks, locks, files and futures stay with the
//! caller, which performs the waits and hands their outcome back.

pub mod arguments;
pub mod bundle;
pub mod cell;
pub mod code_mode;
pub mod context;
pub mod elicitation;
pub mod handler;
pub mod invocation;
pub mod json;
pub mod outside;
pub mod registry;
pub mod replay;
pub mod runtime;
pub mod session;
pub mod tool;
pub mod trace;
