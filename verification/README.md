# tool_dispatch

State machines for dispatching tool calls, verified with Verus.

- `src/elicitation.rs`: open elicitations and who still waits for them.
- `src/runtime.rs`: what a code-mode session does for a service.
- `src/session.rs`: a session that plays a fixed part and counts what it is asked.
- `src/cell.rs`, `src/code_mode.rs`: live cells, and how executions and interrupts take turns.
- `src/context.rs`: sessions, turns and steps.
- `src/tool.rs`, `src/handler.rs`, `src/invocation.rs`: tools and calls of tools.
- `src/arguments.rs`: what a call of the wait tool asks for.
- `src/registry.rs`: dispatching a call and tracing it from start to end.
- `src/trace.rs`, `src/replay.rs`: writing a trace down and telling what it says.
- `src/bundle.rs`, `src/json.rs`: the text that a trace is kept as.
- `src/outside.rs`: what is taken on trust from tokio, tokio-util and the standard library.
- `app/`: the tasks, locks and files around the library.
