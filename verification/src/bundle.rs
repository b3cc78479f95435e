//! How a trace is kept in its directory: one line for each event, which is a JSON array of
//! strings and nulls.

use crate::cell::{copy_text, text_opt};
use crate::invocation::{
    DispatchRequesterView, DispatchView, ToolDispatchInvocation, ToolDispatchRequester,
};
use crate::json::{
    characters, is_next, law_no_line_ends_within_a_string, law_strings_are_read_back,
    law_strings_end_at_their_quote, law_strings_leave_what_follows, lemma_line_ends_add_up,
    lemma_no_line_ends, lemma_read_string_is_shorter, line_ends, next_is, push_string, read_string,
    string_at, string_text,
};
use crate::tool::{PayloadView, ToolPayload};
use crate::trace::{
    event_views, EventView, ExecutionStatus, MetadataView, ResultPayloadView, SessionSource,
    ThreadStartedTraceMetadata, ThreadTrace, ToolResultPayload, TraceEvent,
};
use vstd::prelude::*;

verus! {

/// One item of a line: a string or null.
pub type Item = Option<Seq<char>>;

/// How the line of an ended call says how it stands.
pub open spec fn status_text(status: ExecutionStatus) -> Seq<char> {
    match status {
        ExecutionStatus::Running => "running"@,
        ExecutionStatus::Completed => "completed"@,
        ExecutionStatus::Failed => "failed"@,
    }
}

/// How the line of an ended call says whether the tool did what it was asked.
pub open spec fn success_item(success: Option<bool>) -> Item {
    match success {
        Some(true) => Some("true"@),
        Some(false) => Some("false"@),
        None => None,
    }
}

/// The items of the line for `event`, the first of which says what happened.
pub open spec fn event_items(event: EventView) -> Seq<Item> {
    match event {
        EventView::ThreadStarted(metadata) => seq![
            Some("thread_started"@),
            Some(metadata.thread_id),
            Some(metadata.agent_path),
            metadata.task_name,
            metadata.nickname,
            metadata.agent_role,
            Some(metadata.cwd),
            metadata.rollout_path,
            Some(metadata.model),
            Some(metadata.provider_name),
            Some(metadata.approval_policy),
            Some(metadata.sandbox_policy),
        ],
        EventView::TurnStarted { codex_turn_id } => seq![
            Some("turn_started"@),
            Some(codex_turn_id),
        ],
        EventView::CodeCellStarted {
            codex_turn_id,
            runtime_cell_id,
            model_visible_call_id,
            source,
        } => seq![
            Some("code_cell_started"@),
            Some(codex_turn_id),
            Some(runtime_cell_id),
            Some(model_visible_call_id),
            Some(source),
        ],
        EventView::ToolCallStarted(call) => seq![
            Some("tool_call_started"@),
            Some(call.thread_id),
            Some(call.codex_turn_id),
            Some(call.tool_call_id),
            Some(call.tool_name),
            call.tool_namespace,
            match call.requester {
                DispatchRequesterView::Model { .. } => None,
                DispatchRequesterView::CodeCell { runtime_cell_id, .. } => Some(runtime_cell_id),
            },
            Some(
                match call.requester {
                    DispatchRequesterView::Model { model_visible_call_id } => model_visible_call_id,
                    DispatchRequesterView::CodeCell { runtime_tool_call_id, .. } => {
                        runtime_tool_call_id
                    },
                },
            ),
            Some(
                match call.payload {
                    PayloadView::Function { .. } => "function"@,
                    PayloadView::Custom { .. } => "custom"@,
                },
            ),
            Some(
                match call.payload {
                    PayloadView::Function { arguments } => arguments,
                    PayloadView::Custom { input } => input,
                },
            ),
        ],
        EventView::ToolCallEnded { tool_call_id, status, result } => match result {
            ResultPayloadView::DirectResponse { call_id, text, success } => seq![
                Some("tool_call_ended"@),
                Some(tool_call_id),
                Some(status_text(status)),
                Some("direct"@),
                Some(call_id),
                Some(text),
                success_item(success),
            ],
            ResultPayloadView::CodeModeResponse { value } => seq![
                Some("tool_call_ended"@),
                Some(tool_call_id),
                Some(status_text(status)),
                Some("code_mode"@),
                Some(value),
            ],
            ResultPayloadView::Error { message } => seq![
                Some("tool_call_ended"@),
                Some(tool_call_id),
                Some(status_text(status)),
                Some("error"@),
                Some(message),
            ],
        },
    }
}

/// How an item is written.
pub open spec fn item_text(item: Item) -> Seq<char> {
    match item {
        Some(held) => string_text(held),
        None => "null"@,
    }
}

/// How items are written, with commas between them.
pub open spec fn items_text(items: Seq<Item>) -> Seq<char>
    decreases items.len(),
{
    if items.len() == 0 {
        Seq::empty()
    } else if items.len() == 1 {
        item_text(items[0])
    } else {
        item_text(items[0]) + seq![','] + items_text(items.skip(1))
    }
}

/// The line for `event`.
pub open spec fn event_line(event: EventView) -> Seq<char> {
    seq!['['] + items_text(event_items(event)) + seq![']', '\n']
}

/// The lines for `events`.
pub open spec fn events_text(events: Seq<EventView>) -> Seq<char>
    decreases events.len(),
{
    if events.len() == 0 {
        Seq::empty()
    } else {
        event_line(events[0]) + events_text(events.skip(1))
    }
}

/// Reads an item, and what is left of `text` behind it.
pub open spec fn read_item(text: Seq<char>) -> Option<(Item, Seq<char>)> {
    if next_is(text, '"') {
        match read_string(text.skip(1)) {
            Some((held, left)) => Some((Some(held), left)),
            None => None,
        }
    } else if text.len() >= 4 && text.take(4) == "null"@ {
        Some((None, text.skip(4)))
    } else {
        None
    }
}

/// Reading an item gets on.
pub proof fn lemma_read_item_is_shorter(text: Seq<char>)
    ensures
        read_item(text) matches Some((_, left)) ==> left.len() < text.len(),
{
    if next_is(text, '"') {
        lemma_read_string_is_shorter(text.skip(1));
    }
}

/// Reads the items of a line from one of them on, and what is left of `text` behind the closing
/// bracket.
pub open spec fn read_items(text: Seq<char>) -> Option<(Seq<Item>, Seq<char>)>
    decreases text.len(),
{
    match read_item(text) {
        None => None,
        Some((item, left)) => if next_is(left, ',') {
            proof {
                lemma_read_item_is_shorter(text);
            }
            match read_items(left.skip(1)) {
                Some((more, end)) => Some((seq![item] + more, end)),
                None => None,
            }
        } else if next_is(left, ']') {
            Some((seq![item], left.skip(1)))
        } else {
            None
        },
    }
}

/// Reading the items of a line gets on.
pub proof fn lemma_read_items_is_shorter(text: Seq<char>)
    ensures
        read_items(text) matches Some((_, left)) ==> left.len() < text.len(),
    decreases text.len(),
{
    lemma_read_item_is_shorter(text);
    if let Some((_, left)) = read_item(text) {
        if next_is(left, ',') {
            lemma_read_items_is_shorter(left.skip(1));
        }
    }
}

/// What an ended call is said to stand like.
pub open spec fn read_status(text: Seq<char>) -> Option<ExecutionStatus> {
    if text == "running"@ {
        Some(ExecutionStatus::Running)
    } else if text == "completed"@ {
        Some(ExecutionStatus::Completed)
    } else if text == "failed"@ {
        Some(ExecutionStatus::Failed)
    } else {
        None
    }
}

/// Whether the tool is said to have done what it was asked.
pub open spec fn read_success(item: Item) -> Option<Option<bool>> {
    match item {
        None => Some(None),
        Some(text) => if text == "true"@ {
            Some(Some(true))
        } else if text == "false"@ {
            Some(Some(false))
        } else {
            None
        },
    }
}

/// The start of a thread that a line tells of.
pub open spec fn read_thread_started(items: Seq<Item>) -> Option<EventView> {
    match (
        (items[1], items[2], items[6], items[8]),
        (items[9], items[10], items[11]),
        items.len() == 12,
    ) {
        (
            (Some(thread_id), Some(agent_path), Some(cwd), Some(model)),
            (Some(provider_name), Some(approval_policy), Some(sandbox_policy)),
            true,
        ) => Some(
            EventView::ThreadStarted(
                MetadataView {
                    thread_id,
                    agent_path,
                    task_name: items[3],
                    nickname: items[4],
                    agent_role: items[5],
                    session_source: SessionSource::Exec,
                    cwd,
                    rollout_path: items[7],
                    model,
                    provider_name,
                    approval_policy,
                    sandbox_policy,
                },
            ),
        ),
        _ => None,
    }
}

/// The start of a turn that a line tells of.
pub open spec fn read_turn_started(items: Seq<Item>) -> Option<EventView> {
    match (items[1], items.len() == 2) {
        (Some(codex_turn_id), true) => Some(EventView::TurnStarted { codex_turn_id }),
        _ => None,
    }
}

/// The start of a cell that a line tells of.
pub open spec fn read_code_cell_started(items: Seq<Item>) -> Option<EventView> {
    match (items[1], items[2], items[3], items[4], items.len() == 5) {
        (
            Some(codex_turn_id),
            Some(runtime_cell_id),
            Some(model_visible_call_id),
            Some(source),
            true,
        ) => Some(
            EventView::CodeCellStarted {
                codex_turn_id,
                runtime_cell_id,
                model_visible_call_id,
                source,
            },
        ),
        _ => None,
    }
}

/// What a call is said to carry.
pub open spec fn read_payload(kind: Seq<char>, held: Seq<char>) -> Option<PayloadView> {
    if kind == "function"@ {
        Some(PayloadView::Function { arguments: held })
    } else if kind == "custom"@ {
        Some(PayloadView::Custom { input: held })
    } else {
        None
    }
}

/// The start of a call that a line tells of.
pub open spec fn read_tool_call_started(items: Seq<Item>) -> Option<EventView> {
    match (
        (items[1], items[2], items[3], items[4]),
        (items[7], items[8], items[9]),
        items.len() == 10,
    ) {
        (
            (Some(thread_id), Some(codex_turn_id), Some(tool_call_id), Some(tool_name)),
            (Some(requested_as), Some(kind), Some(held)),
            true,
        ) => match read_payload(kind, held) {
            Some(payload) => Some(
                EventView::ToolCallStarted(
                    DispatchView {
                        thread_id,
                        codex_turn_id,
                        tool_call_id,
                        tool_name,
                        tool_namespace: items[5],
                        requester: match items[6] {
                            None => DispatchRequesterView::Model {
                                model_visible_call_id: requested_as,
                            },
                            Some(runtime_cell_id) => DispatchRequesterView::CodeCell {
                                runtime_cell_id,
                                runtime_tool_call_id: requested_as,
                            },
                        },
                        payload,
                    },
                ),
            ),
            None => None,
        },
        _ => None,
    }
}

/// What a call is said to have come to, from the item on that says what kind of result it is.
pub open spec fn read_result(items: Seq<Item>) -> Option<ResultPayloadView> {
    if items.len() == 4 && items[0] == Some("direct"@) {
        match (items[1], items[2], read_success(items[3])) {
            (Some(call_id), Some(text), Some(success)) => Some(
                ResultPayloadView::DirectResponse { call_id, text, success },
            ),
            _ => None,
        }
    } else if items.len() == 2 && items[0] == Some("code_mode"@) {
        match items[1] {
            Some(value) => Some(ResultPayloadView::CodeModeResponse { value }),
            None => None,
        }
    } else if items.len() == 2 && items[0] == Some("error"@) {
        match items[1] {
            Some(message) => Some(ResultPayloadView::Error { message }),
            None => None,
        }
    } else {
        None
    }
}

/// The end of a call that a line tells of.
pub open spec fn read_tool_call_ended(items: Seq<Item>) -> Option<EventView> {
    if items.len() < 3 {
        None
    } else {
        match (items[1], items[2], read_result(items.skip(3))) {
            (Some(tool_call_id), Some(status), Some(result)) => match read_status(status) {
                Some(status) => Some(EventView::ToolCallEnded { tool_call_id, status, result }),
                None => None,
            },
            _ => None,
        }
    }
}

/// The event that a line with these items tells of.
pub open spec fn read_event(items: Seq<Item>) -> Option<EventView> {
    if items.len() == 0 {
        None
    } else if items[0] == Some("thread_started"@) {
        read_thread_started(items)
    } else if items[0] == Some("turn_started"@) {
        read_turn_started(items)
    } else if items[0] == Some("code_cell_started"@) {
        read_code_cell_started(items)
    } else if items[0] == Some("tool_call_started"@) {
        read_tool_call_started(items)
    } else if items[0] == Some("tool_call_ended"@) {
        read_tool_call_ended(items)
    } else {
        None
    }
}

/// The events that the lines of `text` tell of, if every line tells of one.
pub open spec fn read_events(text: Seq<char>) -> Option<Seq<EventView>>
    decreases text.len(),
{
    if text.len() == 0 {
        Some(Seq::empty())
    } else if !next_is(text, '[') {
        None
    } else {
        match read_items(text.skip(1)) {
            None => None,
            Some((items, left)) => if !next_is(left, '\n') {
                None
            } else {
                proof {
                    lemma_read_items_is_shorter(text.skip(1));
                }
                match (read_event(items), read_events(left.skip(1))) {
                    (Some(event), Some(more)) => Some(seq![event] + more),
                    _ => None,
                }
            },
        }
    }
}

proof fn lemma_words_differ()
    ensures
        "thread_started"@ != "turn_started"@,
        "thread_started"@ != "code_cell_started"@,
        "thread_started"@ != "tool_call_started"@,
        "thread_started"@ != "tool_call_ended"@,
        "turn_started"@ != "code_cell_started"@,
        "turn_started"@ != "tool_call_started"@,
        "turn_started"@ != "tool_call_ended"@,
        "code_cell_started"@ != "tool_call_started"@,
        "code_cell_started"@ != "tool_call_ended"@,
        "tool_call_started"@ != "tool_call_ended"@,
        "function"@ != "custom"@,
        "direct"@ != "code_mode"@,
        "direct"@ != "error"@,
        "code_mode"@ != "error"@,
        "running"@ != "completed"@,
        "running"@ != "failed"@,
        "completed"@ != "failed"@,
        "true"@ != "false"@,
{
    reveal_strlit("thread_started");
    assert("thread_started"@.len() == 14);
    reveal_strlit("turn_started");
    assert("turn_started"@.len() == 12);
    reveal_strlit("code_cell_started");
    assert("code_cell_started"@.len() == 17);
    reveal_strlit("tool_call_started");
    assert("tool_call_started"@.len() == 17);
    reveal_strlit("tool_call_ended");
    assert("tool_call_ended"@.len() == 15);
    assert("code_cell_started"@[0] != "tool_call_started"@[0]);
    reveal_strlit("function");
    assert("function"@.len() == 8);
    reveal_strlit("custom");
    assert("custom"@.len() == 6);
    reveal_strlit("direct");
    assert("direct"@.len() == 6);
    reveal_strlit("code_mode");
    assert("code_mode"@.len() == 9);
    reveal_strlit("error");
    assert("error"@.len() == 5);
    reveal_strlit("running");
    assert("running"@.len() == 7);
    reveal_strlit("completed");
    assert("completed"@.len() == 9);
    reveal_strlit("failed");
    assert("failed"@.len() == 6);
    reveal_strlit("true");
    assert("true"@.len() == 4);
    reveal_strlit("false");
    assert("false"@.len() == 5);
}

proof fn lemma_event_is_read_back(event: EventView)
    ensures
        event_items(event).len() > 0,
        read_event(event_items(event)) == Some(event),
{
    lemma_words_differ();
    let items = event_items(event);
    match event {
        EventView::ThreadStarted(metadata) => {
            assert(metadata.session_source == SessionSource::Exec);
        },
        EventView::ToolCallEnded { tool_call_id, status, result } => {
            assert(read_result(items.skip(3)) == Some(result)) by {
                match result {
                    ResultPayloadView::DirectResponse { call_id, text, success } => {
                        assert(read_success(success_item(success)) == Some(success));
                    },
                    _ => {},
                }
            }
        },
        _ => {},
    }
}

proof fn lemma_item_is_read_back(item: Item, left: Seq<char>)
    ensures
        read_item(item_text(item) + left) == Some((item, left)),
{
    let text = item_text(item) + left;
    match item {
        Some(held) => {
            law_strings_are_read_back(held, left);
        },
        None => {
            reveal_strlit("null");
            assert(text.take(4) =~= "null"@);
            assert(text.skip(4) =~= left);
        },
    }
}

proof fn lemma_items_are_read_back(items: Seq<Item>, left: Seq<char>)
    requires
        items.len() > 0,
    ensures
        read_items(items_text(items) + seq![']'] + left) == Some((items, left)),
    decreases items.len(),
{
    let text = items_text(items) + seq![']'] + left;
    if items.len() == 1 {
        let end = seq![']'] + left;
        assert(text =~= item_text(items[0]) + end);
        lemma_item_is_read_back(items[0], end);
        assert(end.skip(1) =~= left);
        assert(seq![items[0]] =~= items);
    } else {
        let rest = items_text(items.skip(1)) + seq![']'] + left;
        let comma = seq![','] + rest;
        assert(text =~= item_text(items[0]) + comma);
        lemma_item_is_read_back(items[0], comma);
        assert(comma.skip(1) =~= rest);
        lemma_items_are_read_back(items.skip(1), left);
        assert(seq![items[0]] + items.skip(1) =~= items);
    }
}

proof fn lemma_line_is_read_back(items: Seq<Item>, event: EventView, rest: Seq<char>)
    requires
        items.len() > 0,
        read_event(items) == Some(event),
        read_events(rest) is Some,
    ensures
        read_events(seq!['['] + items_text(items) + seq![']', '\n'] + rest) == Some(
            seq![event] + read_events(rest)->Some_0,
        ),
{
    let text = seq!['['] + items_text(items) + seq![']', '\n'] + rest;
    let line_end = seq!['\n'] + rest;
    lemma_items_are_read_back(items, line_end);
    assert(text.skip(1) =~= items_text(items) + seq![']'] + line_end);
    assert(text[0] == '[');
    assert(line_end.skip(1) =~= rest);
}

/// A trace that was written down is read back as it was.
pub proof fn law_trace_is_read_back(events: Seq<EventView>)
    ensures
        read_events(events_text(events)) == Some(events),
    decreases events.len(),
{
    if events.len() == 0 {
        assert(events =~= Seq::empty());
    } else {
        lemma_event_is_read_back(events[0]);
        law_trace_is_read_back(events.skip(1));
        lemma_line_is_read_back(
            event_items(events[0]),
            events[0],
            events_text(events.skip(1)),
        );
        assert(seq![events[0]] + events.skip(1) =~= events);
    }
}

/// Items, each with its string read as a text.
pub open spec fn item_views(items: Seq<Option<String>>) -> Seq<Item> {
    items.map_values(|item: Option<String>| text_opt(item))
}

fn word(text: &str) -> (item: Option<String>)
    ensures
        text_opt(item) == Some(text@),
{
    Some(text.to_string())
}

fn thread_started_items(metadata: &ThreadStartedTraceMetadata) -> (items: Vec<Option<String>>)
    ensures
        item_views(items@) == event_items(EventView::ThreadStarted(metadata@)),
{
    let items = vec![
        word("thread_started"),
        Some(metadata.thread_id.clone()),
        Some(metadata.agent_path.clone()),
        copy_text(&metadata.task_name),
        copy_text(&metadata.nickname),
        copy_text(&metadata.agent_role),
        Some(metadata.cwd.clone()),
        copy_text(&metadata.rollout_path),
        Some(metadata.model.clone()),
        Some(metadata.provider_name.clone()),
        Some(metadata.approval_policy.clone()),
        Some(metadata.sandbox_policy.clone()),
    ];
    assert(item_views(items@) =~= event_items(EventView::ThreadStarted(metadata@)));
    items
}

fn call_started_items(call: &ToolDispatchInvocation) -> (items: Vec<Option<String>>)
    ensures
        item_views(items@) == event_items(EventView::ToolCallStarted(call@)),
{
    let (cell, requested_as) = match &call.requester {
        ToolDispatchRequester::Model { model_visible_call_id } => (
            None,
            model_visible_call_id.clone(),
        ),
        ToolDispatchRequester::CodeCell { runtime_cell_id, runtime_tool_call_id } => (
            Some(runtime_cell_id.clone()),
            runtime_tool_call_id.clone(),
        ),
    };
    let (kind, held) = match &call.payload {
        ToolPayload::Function { arguments } => (word("function"), arguments.clone()),
        ToolPayload::Custom { input } => (word("custom"), input.clone()),
    };
    let items = vec![
        word("tool_call_started"),
        Some(call.thread_id.clone()),
        Some(call.codex_turn_id.clone()),
        Some(call.tool_call_id.clone()),
        Some(call.tool_name.clone()),
        copy_text(&call.tool_namespace),
        cell,
        Some(requested_as),
        kind,
        Some(held),
    ];
    assert(item_views(items@) =~= event_items(EventView::ToolCallStarted(call@)));
    items
}

fn call_ended_items(
    tool_call_id: &String,
    status: ExecutionStatus,
    result: &ToolResultPayload,
) -> (items: Vec<Option<String>>)
    ensures
        item_views(items@) == event_items(
            EventView::ToolCallEnded { tool_call_id: tool_call_id@, status, result: result@ },
        ),
{
    let ghost expected = event_items(
        EventView::ToolCallEnded { tool_call_id: tool_call_id@, status, result: result@ },
    );
    let stands = match status {
        ExecutionStatus::Running => word("running"),
        ExecutionStatus::Completed => word("completed"),
        ExecutionStatus::Failed => word("failed"),
    };
    let items = match result {
        ToolResultPayload::DirectResponse { call_id, text, success } => {
            let succeeded = match success {
                Some(true) => word("true"),
                Some(false) => word("false"),
                None => None,
            };
            vec![
                word("tool_call_ended"),
                Some(tool_call_id.clone()),
                stands,
                word("direct"),
                Some(call_id.clone()),
                Some(text.clone()),
                succeeded,
            ]
        },
        ToolResultPayload::CodeModeResponse { value } => vec![
            word("tool_call_ended"),
            Some(tool_call_id.clone()),
            stands,
            word("code_mode"),
            Some(value.clone()),
        ],
        ToolResultPayload::Error { message } => vec![
            word("tool_call_ended"),
            Some(tool_call_id.clone()),
            stands,
            word("error"),
            Some(message.clone()),
        ],
    };
    assert(item_views(items@) =~= expected);
    items
}

fn items_of(event: &TraceEvent) -> (items: Vec<Option<String>>)
    ensures
        item_views(items@) == event_items(event@),
{
    match event {
        TraceEvent::ThreadStarted(metadata) => thread_started_items(metadata),
        TraceEvent::TurnStarted { codex_turn_id } => {
            let items = vec![word("turn_started"), Some(codex_turn_id.clone())];
            assert(item_views(items@) =~= event_items(event@));
            items
        },
        TraceEvent::CodeCellStarted {
            codex_turn_id,
            runtime_cell_id,
            model_visible_call_id,
            source,
        } => {
            let items = vec![
                word("code_cell_started"),
                Some(codex_turn_id.clone()),
                Some(runtime_cell_id.clone()),
                Some(model_visible_call_id.clone()),
                Some(source.clone()),
            ];
            assert(item_views(items@) =~= event_items(event@));
            items
        },
        TraceEvent::ToolCallStarted(call) => call_started_items(call),
        TraceEvent::ToolCallEnded { tool_call_id, status, result } => {
            call_ended_items(tool_call_id, *status, result)
        },
    }
}

fn push_items(out: &mut String, items: &Vec<Option<String>>)
    ensures
        final(out)@ == old(out)@ + items_text(item_views(items@)),
{
    let ghost before = out@;
    let ghost views = item_views(items@);
    let mut at: usize = 0;
    assert(views.skip(0) =~= views);
    assert(items.len() == 0 ==> out@ + items_text(views) =~= out@);
    while at < items.len()
        invariant
            at <= items.len(),
            views == item_views(items@),
            out@ + items_text(views.skip(at as int)) == before + items_text(views),
        decreases items.len() - at,
    {
        let ghost so_far = out@;
        let ghost rest = views.skip(at as int);
        assert(rest[0] == text_opt(items@[at as int]));
        assert(rest.skip(1) =~= views.skip(at + 1));
        match &items[at] {
            Some(text) => push_string(out, text.as_str()),
            None => out.append("null"),
        }
        assert(out@ == so_far + item_text(rest[0]));
        if at + 1 < items.len() {
            out.push(',');
            assert(so_far + (item_text(rest[0]) + seq![','] + items_text(views.skip(at + 1)))
                =~= out@ + items_text(views.skip(at + 1)));
        } else {
            assert(out@ + items_text(views.skip(at + 1)) =~= out@);
        }
        at += 1;
    }
    assert(out@ + items_text(views.skip(at as int)) =~= out@);
}

/// What is kept of a trace.
pub fn trace_text(trace: &ThreadTrace) -> (text: String)
    ensures
        text@ == events_text(event_views(trace.events@)),
{
    let ghost events = event_views(trace.events@);
    let mut text = String::new();
    let mut at: usize = 0;
    assert(events.skip(0) =~= events);
    assert(text@ + events_text(events) =~= events_text(events));
    while at < trace.events.len()
        invariant
            at <= trace.events.len(),
            events == event_views(trace.events@),
            text@ + events_text(events.skip(at as int)) == events_text(events),
        decreases trace.events.len() - at,
    {
        let ghost so_far = text@;
        assert(events.skip(at as int)[0] == trace.events@[at as int]@);
        assert(events.skip(at as int).skip(1) =~= events.skip(at + 1));
        text.push('[');
        push_items(&mut text, &items_of(&trace.events[at]));
        text.push(']');
        text.push('\n');
        assert(text@ =~= so_far + event_line(events[at as int]));
        assert(so_far + (event_line(events[at as int]) + events_text(events.skip(at + 1)))
            =~= text@ + events_text(events.skip(at + 1)));
        at += 1;
    }
    assert(text@ + events_text(events.skip(at as int)) =~= text@);
    text
}

fn item_at(chars: &Vec<char>, from: usize) -> (item: Option<(Option<String>, usize)>)
    requires
        from <= chars.len(),
    ensures
        match item {
            Some((item, at)) => from < at <= chars.len() && read_item(chars@.skip(from as int))
                == Some((text_opt(item), chars@.skip(at as int))),
            None => read_item(chars@.skip(from as int)) is None,
        },
{
    if is_next(chars, from, '"') {
        return match string_at(chars, from + 1) {
            Some((held, at)) => Some((Some(held), at)),
            None => None,
        };
    }
    proof {
        reveal_strlit("null");
    }
    let ghost text = chars@.skip(from as int);
    if chars.len() - from >= 4 && chars[from] == 'n' && chars[from + 1] == 'u' && chars[from + 2]
        == 'l' && chars[from + 3] == 'l' {
        assert(text.take(4) =~= "null"@);
        assert(text.skip(4) =~= chars@.skip(from + 4));
        Some((None, from + 4))
    } else {
        assert(text.len() >= 4 && text.take(4) == "null"@ ==> {
            &&& text[0] == text.take(4)[0]
            &&& text[1] == text.take(4)[1]
            &&& text[2] == text.take(4)[2]
            &&& text[3] == text.take(4)[3]
        });
        None
    }
}

fn items_at(chars: &Vec<char>, from: usize) -> (read: Option<(Vec<Option<String>>, usize)>)
    requires
        from <= chars.len(),
    ensures
        match read {
            Some((items, at)) => from < at <= chars.len() && read_items(chars@.skip(from as int))
                == Some((item_views(items@), chars@.skip(at as int))),
            None => read_items(chars@.skip(from as int)) is None,
        },
{
    let mut items: Vec<Option<String>> = Vec::new();
    let mut at: usize = from;
    proof {
        if let Some((more, _)) = read_items(chars@.skip(from as int)) {
            assert(item_views(items@) + more =~= more);
        }
    }
    loop
        invariant
            from <= at <= chars.len(),
            match read_items(chars@.skip(at as int)) {
                Some((more, left)) => read_items(chars@.skip(from as int)) == Some(
                    (item_views(items@) + more, left),
                ),
                None => read_items(chars@.skip(from as int)) is None,
            },
        decreases chars.len() - at,
    {
        let ghost so_far = item_views(items@);
        let (item, left) = match item_at(chars, at) {
            Some(item) => item,
            None => {
                return None;
            },
        };
        let ghost view = text_opt(item);
        items.push(item);
        assert(item_views(items@) =~= so_far.push(view));
        assert(so_far + seq![view] =~= so_far.push(view));
        if is_next(chars, left, ',') {
            proof {
                if let Some((more, _)) = read_items(chars@.skip(left + 1)) {
                    assert(so_far + (seq![view] + more) =~= item_views(items@) + more);
                }
            }
            at = left + 1;
        } else if is_next(chars, left, ']') {
            return Some((items, left + 1));
        } else {
            return None;
        }
    }
}

fn is_word(item: &Option<String>, word: &str) -> (yes: bool)
    ensures
        yes == (text_opt(*item) == Some(word@)),
{
    match item {
        Some(text) => *text == word.to_string(),
        None => false,
    }
}

fn thread_started(items: &Vec<Option<String>>) -> (event: Option<TraceEvent>)
    ensures
        match event {
            Some(event) => read_thread_started(item_views(items@)) == Some(event@),
            None => read_thread_started(item_views(items@)) is None,
        },
{
    if items.len() != 12 {
        return None;
    }
    match (
        (copy_text(&items[1]), copy_text(&items[2]), copy_text(&items[6]), copy_text(&items[8])),
        (copy_text(&items[9]), copy_text(&items[10]), copy_text(&items[11])),
    ) {
        (
            (Some(thread_id), Some(agent_path), Some(cwd), Some(model)),
            (Some(provider_name), Some(approval_policy), Some(sandbox_policy)),
        ) => Some(
            TraceEvent::ThreadStarted(
                ThreadStartedTraceMetadata {
                    thread_id,
                    agent_path,
                    task_name: copy_text(&items[3]),
                    nickname: copy_text(&items[4]),
                    agent_role: copy_text(&items[5]),
                    session_source: SessionSource::Exec,
                    cwd,
                    rollout_path: copy_text(&items[7]),
                    model,
                    provider_name,
                    approval_policy,
                    sandbox_policy,
                },
            ),
        ),
        _ => None,
    }
}

fn turn_started(items: &Vec<Option<String>>) -> (event: Option<TraceEvent>)
    ensures
        match event {
            Some(event) => read_turn_started(item_views(items@)) == Some(event@),
            None => read_turn_started(item_views(items@)) is None,
        },
{
    if items.len() != 2 {
        return None;
    }
    match copy_text(&items[1]) {
        Some(codex_turn_id) => Some(TraceEvent::TurnStarted { codex_turn_id }),
        None => None,
    }
}

fn code_cell_started(items: &Vec<Option<String>>) -> (event: Option<TraceEvent>)
    ensures
        match event {
            Some(event) => read_code_cell_started(item_views(items@)) == Some(event@),
            None => read_code_cell_started(item_views(items@)) is None,
        },
{
    if items.len() != 5 {
        return None;
    }
    match (copy_text(&items[1]), copy_text(&items[2]), copy_text(&items[3]), copy_text(&items[4])) {
        (
            Some(codex_turn_id),
            Some(runtime_cell_id),
            Some(model_visible_call_id),
            Some(source),
        ) => Some(
            TraceEvent::CodeCellStarted {
                codex_turn_id,
                runtime_cell_id,
                model_visible_call_id,
                source,
            },
        ),
        _ => None,
    }
}

fn payload_of(kind: &Option<String>, held: String) -> (payload: Option<ToolPayload>)
    requires
        kind is Some,
    ensures
        match payload {
            Some(payload) => read_payload(kind->Some_0@, held@) == Some(payload@),
            None => read_payload(kind->Some_0@, held@) is None,
        },
{
    if is_word(kind, "function") {
        Some(ToolPayload::Function { arguments: held })
    } else if is_word(kind, "custom") {
        Some(ToolPayload::Custom { input: held })
    } else {
        None
    }
}

fn tool_call_started(items: &Vec<Option<String>>) -> (event: Option<TraceEvent>)
    ensures
        match event {
            Some(event) => read_tool_call_started(item_views(items@)) == Some(event@),
            None => read_tool_call_started(item_views(items@)) is None,
        },
{
    if items.len() != 10 || items[8].is_none() {
        return None;
    }
    match (
        (copy_text(&items[1]), copy_text(&items[2]), copy_text(&items[3]), copy_text(&items[4])),
        (copy_text(&items[7]), copy_text(&items[9])),
    ) {
        (
            (Some(thread_id), Some(codex_turn_id), Some(tool_call_id), Some(tool_name)),
            (Some(requested_as), Some(held)),
        ) => {
            let payload = match payload_of(&items[8], held) {
                Some(payload) => payload,
                None => {
                    return None;
                },
            };
            let requester = match copy_text(&items[6]) {
                None => ToolDispatchRequester::Model { model_visible_call_id: requested_as },
                Some(runtime_cell_id) => ToolDispatchRequester::CodeCell {
                    runtime_cell_id,
                    runtime_tool_call_id: requested_as,
                },
            };
            Some(
                TraceEvent::ToolCallStarted(
                    ToolDispatchInvocation {
                        thread_id,
                        codex_turn_id,
                        tool_call_id,
                        tool_name,
                        tool_namespace: copy_text(&items[5]),
                        requester,
                        payload,
                    },
                ),
            )
        },
        _ => None,
    }
}

fn success_of(item: &Option<String>) -> (success: Option<Option<bool>>)
    ensures
        success == read_success(text_opt(*item)),
{
    if item.is_none() {
        Some(None)
    } else if is_word(item, "true") {
        Some(Some(true))
    } else if is_word(item, "false") {
        Some(Some(false))
    } else {
        None
    }
}

fn status_from(item: &Option<String>) -> (status: Option<ExecutionStatus>)
    ensures
        status == match text_opt(*item) {
            Some(text) => read_status(text),
            None => None,
        },
{
    if is_word(item, "running") {
        Some(ExecutionStatus::Running)
    } else if is_word(item, "completed") {
        Some(ExecutionStatus::Completed)
    } else if is_word(item, "failed") {
        Some(ExecutionStatus::Failed)
    } else {
        None
    }
}

fn result_of(items: &Vec<Option<String>>) -> (result: Option<ToolResultPayload>)
    requires
        items.len() >= 3,
    ensures
        match result {
            Some(result) => read_result(item_views(items@).skip(3)) == Some(result@),
            None => read_result(item_views(items@).skip(3)) is None,
        },
{
    proof {
        lemma_words_differ();
    }
    if items.len() == 7 && is_word(&items[3], "direct") {
        match (copy_text(&items[4]), copy_text(&items[5]), success_of(&items[6])) {
            (Some(call_id), Some(text), Some(success)) => Some(
                ToolResultPayload::DirectResponse { call_id, text, success },
            ),
            _ => None,
        }
    } else if items.len() == 5 && is_word(&items[3], "code_mode") {
        match copy_text(&items[4]) {
            Some(value) => Some(ToolResultPayload::CodeModeResponse { value }),
            None => None,
        }
    } else if items.len() == 5 && is_word(&items[3], "error") {
        match copy_text(&items[4]) {
            Some(message) => Some(ToolResultPayload::Error { message }),
            None => None,
        }
    } else {
        None
    }
}

fn tool_call_ended(items: &Vec<Option<String>>) -> (event: Option<TraceEvent>)
    ensures
        match event {
            Some(event) => read_tool_call_ended(item_views(items@)) == Some(event@),
            None => read_tool_call_ended(item_views(items@)) is None,
        },
{
    if items.len() < 3 {
        return None;
    }
    match (copy_text(&items[1]), status_from(&items[2]), result_of(items)) {
        (Some(tool_call_id), Some(status), Some(result)) => Some(
            TraceEvent::ToolCallEnded { tool_call_id, status, result },
        ),
        _ => None,
    }
}

fn event_from(items: &Vec<Option<String>>) -> (event: Option<TraceEvent>)
    ensures
        match event {
            Some(event) => read_event(item_views(items@)) == Some(event@),
            None => read_event(item_views(items@)) is None,
        },
{
    proof {
        lemma_words_differ();
    }
    if items.len() == 0 {
        None
    } else if is_word(&items[0], "thread_started") {
        thread_started(items)
    } else if is_word(&items[0], "turn_started") {
        turn_started(items)
    } else if is_word(&items[0], "code_cell_started") {
        code_cell_started(items)
    } else if is_word(&items[0], "tool_call_started") {
        tool_call_started(items)
    } else if is_word(&items[0], "tool_call_ended") {
        tool_call_ended(items)
    } else {
        None
    }
}

/// The trace that `text` was kept of in `bundle_dir`, if every line of it tells of an event.
pub fn read_trace(bundle_dir: String, text: &str) -> (trace: Option<ThreadTrace>)
    ensures
        match read_events(text@) {
            Some(events) => trace matches Some(trace) && trace.bundle_dir == bundle_dir
                && event_views(trace.events@) == events,
            None => trace is None,
        },
{
    let chars = characters(text);
    let mut events: Vec<TraceEvent> = Vec::new();
    let mut at: usize = 0;
    assert(chars@.skip(0) =~= text@);
    proof {
        if let Some(more) = read_events(text@) {
            assert(event_views(events@) + more =~= more);
        }
    }
    while at < chars.len()
        invariant
            at <= chars.len(),
            match read_events(chars@.skip(at as int)) {
                Some(more) => read_events(text@) == Some(event_views(events@) + more),
                None => read_events(text@) is None,
            },
        decreases chars.len() - at,
    {
        let ghost so_far = event_views(events@);
        if !is_next(&chars, at, '[') {
            return None;
        }
        let (items, left) = match items_at(&chars, at + 1) {
            Some(read) => read,
            None => {
                return None;
            },
        };
        if !is_next(&chars, left, '\n') {
            return None;
        }
        let event = match event_from(&items) {
            Some(event) => event,
            None => {
                return None;
            },
        };
        let ghost view = event@;
        events.push(event);
        assert(event_views(events@) =~= so_far.push(view));
        proof {
            if let Some(more) = read_events(chars@.skip(left + 1)) {
                assert(so_far + (seq![view] + more) =~= event_views(events@) + more);
            }
        }
        at = left + 1;
    }
    assert(event_views(events@) + Seq::empty() =~= event_views(events@));
    Some(ThreadTrace { bundle_dir, events })
}

/// What is kept of a trace is read back as that trace: in the directory that it is looked for in,
/// as many events, in the same order and text for text.
pub proof fn law_kept_traces_are_read_back(
    trace: ThreadTrace,
    text: String,
    bundle_dir: String,
    found: &str,
    read: Option<ThreadTrace>,
)
    requires
        call_ensures(trace_text, (&trace,), text),
        found@ == text@,
        call_ensures(read_trace, (bundle_dir, found), read),
    ensures
        read is Some,
        read->Some_0.bundle_dir@ == bundle_dir@,
        read->Some_0.events@.len() == trace.events@.len(),
        forall|i: int|
            0 <= i < trace.events@.len() ==> (#[trigger] read->Some_0.events@[i])@
                == trace.events@[i]@,
{
    let events = event_views(trace.events@);
    law_trace_is_read_back(events);
    let views = event_views(read->Some_0.events@);
    assert forall|i: int| 0 <= i < trace.events@.len() implies (#[trigger] read->Some_0.events@[i])@
        == trace.events@[i]@ by {
        assert(views[i] == events[i]);
    }
}

proof fn lemma_item_goes_on(text: Seq<char>, more: Seq<char>)
    ensures
        read_item(text) matches Some((item, left)) ==> read_item(text + more) == Some(
            (item, left + more),
        ),
{
    let longer = text + more;
    if next_is(text, '"') {
        assert(longer.skip(1) =~= text.skip(1) + more);
        law_strings_end_at_their_quote(text.skip(1), more);
    } else if text.len() >= 4 && text.take(4) == "null"@ {
        assert(longer.take(4) =~= text.take(4));
        assert(longer.skip(4) =~= text.skip(4) + more);
    }
}

proof fn lemma_items_go_on(text: Seq<char>, more: Seq<char>)
    ensures
        read_items(text) matches Some((items, left)) ==> read_items(text + more) == Some(
            (items, left + more),
        ),
    decreases text.len(),
{
    lemma_item_goes_on(text, more);
    lemma_read_item_is_shorter(text);
    if let Some((_, left)) = read_item(text) {
        if left.len() > 0 {
            assert((left + more).skip(1) =~= left.skip(1) + more);
            if next_is(left, ',') {
                lemma_items_go_on(left.skip(1), more);
            }
        }
    }
}

/// Lines are read one after the other: what stands behind lines that tell of events is read as if
/// it stood alone.
pub proof fn law_lines_are_read_one_after_the_other(text: Seq<char>, more: Seq<char>)
    requires
        read_events(text) is Some,
    ensures
        read_events(text + more) == match read_events(more) {
            Some(events) => Some(read_events(text)->Some_0 + events),
            None => None,
        },
    decreases text.len(),
{
    if text.len() == 0 {
        assert(text + more =~= more);
        if let Some(events) = read_events(more) {
            assert(read_events(text)->Some_0 + events =~= events);
        }
    } else {
        let longer = text + more;
        assert(longer.skip(1) =~= text.skip(1) + more);
        lemma_items_go_on(text.skip(1), more);
        lemma_read_items_is_shorter(text.skip(1));
        let (items, left) = read_items(text.skip(1))->Some_0;
        assert((left + more).skip(1) =~= left.skip(1) + more);
        law_lines_are_read_one_after_the_other(left.skip(1), more);
        let event = read_event(items)->Some_0;
        let rest = read_events(left.skip(1))->Some_0;
        if let Some(events) = read_events(more) {
            assert(seq![event] + (rest + events) =~= seq![event] + rest + events);
        }
    }
}

proof fn lemma_items_end_no_line(text: Seq<char>)
    ensures
        read_items(text) matches Some((_, left)) ==> line_ends(left) == line_ends(text),
    decreases text.len(),
{
    lemma_read_item_is_shorter(text);
    if let Some((_, left)) = read_item(text) {
        if next_is(text, '"') {
            law_no_line_ends_within_a_string(text.skip(1));
        } else {
            reveal_strlit("null");
            assert(text =~= text.take(4) + text.skip(4));
            lemma_line_ends_add_up(text.take(4), text.skip(4));
            lemma_no_line_ends("null"@);
        }
        if next_is(left, ',') {
            lemma_items_end_no_line(left.skip(1));
        }
    }
}

/// A text is read only if each of its lines tells of one event and none is left unfinished: it
/// tells of as many events as lines end in it, and it ends where a line ends.
pub proof fn law_every_line_tells_of_one_event(text: Seq<char>)
    requires
        read_events(text) is Some,
    ensures
        read_events(text)->Some_0.len() == line_ends(text),
        text.len() > 0 ==> text.last() == '\n',
    decreases text.len(),
{
    if text.len() > 0 {
        let (items, left) = read_items(text.skip(1))->Some_0;
        lemma_read_items_is_shorter(text.skip(1));
        lemma_items_end_no_line(text.skip(1));
        law_every_line_tells_of_one_event(left.skip(1));
        lemma_items_leave_a_suffix(text.skip(1));
        assert(left.last() == text.last());
        if left.skip(1).len() > 0 {
            assert(left.skip(1).last() == left.last());
        }
    }
}

proof fn lemma_items_leave_a_suffix(text: Seq<char>)
    ensures
        read_items(text) matches Some((_, left)) ==> (left.len() > 0 ==> left.last()
            == text.last()),
    decreases text.len(),
{
    lemma_read_item_is_shorter(text);
    if let Some((_, left)) = read_item(text) {
        if next_is(text, '"') {
            law_strings_leave_what_follows(text.skip(1));
        }
        if next_is(left, ',') {
            lemma_items_leave_a_suffix(left.skip(1));
        }
    }
}

} // verus!
