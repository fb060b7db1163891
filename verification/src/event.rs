//! What an agent's run reports: text, reasoning, tool calls and their
//! results, the end of the run, and the traffic of a subagent.

use vstd::prelude::*;

use crate::json::{json_view, Json, JsonView};

verus! {

/// The agent program that a chat runs on.
#[derive(Clone, Copy, Debug, PartialEq, Eq, Structural)]
pub enum HarnessId {
    Grok,
    /// Any other one, by the number that the host gives it.
    Other(u16),
}

/// How a run ended.
#[derive(Clone, Copy, Debug, PartialEq, Eq, Structural)]
pub enum DoneStatus {
    Completed,
    Interrupted,
    Errored,
}

/// A tool call, typed where its chip shows more than a name.
#[derive(Debug, PartialEq)]
pub enum ToolCall {
    Exec { command: String },
    ReadFile { path: String },
    Unknown { name: String, input: Option<Json> },
}

/// What a [`ToolCall`] says.
pub enum ToolCallView {
    Exec { command: Seq<char> },
    ReadFile { path: Seq<char> },
    Unknown { name: Seq<char>, input: Option<JsonView> },
}

impl ToolCall {
    pub open spec fn view(&self) -> ToolCallView {
        match self {
            ToolCall::Exec { command } => ToolCallView::Exec { command: command@ },
            ToolCall::ReadFile { path } => ToolCallView::ReadFile { path: path@ },
            ToolCall::Unknown { name, input } => ToolCallView::Unknown {
                name: name@,
                input: json_view(*input),
            },
        }
    }
}

/// One thing that happened in a run.
#[derive(Debug, PartialEq)]
pub enum AgentEvent {
    TextDelta { text: String },
    ReasoningDelta { text: String },
    ToolCall { id: String, call: ToolCall },
    ToolResult { id: String, is_error: bool, output: Option<String>, diff: Option<String> },
    Done {
        status: DoneStatus,
        result: Option<String>,
        error: Option<String>,
        session_id: Option<String>,
    },
    /// An event of a subagent, under the tool call that spawned it.
    Subagent { parent_tool_use_id: String, event: Box<AgentEvent> },
}

/// What an [`AgentEvent`] says.
pub enum EventView {
    TextDelta { text: Seq<char> },
    ReasoningDelta { text: Seq<char> },
    ToolCall { id: Seq<char>, call: ToolCallView },
    ToolResult {
        id: Seq<char>,
        is_error: bool,
        output: Option<Seq<char>>,
        diff: Option<Seq<char>>,
    },
    Done {
        status: DoneStatus,
        result: Option<Seq<char>>,
        error: Option<Seq<char>>,
        session_id: Option<Seq<char>>,
    },
    Subagent { parent_tool_use_id: Seq<char>, event: Box<EventView> },
}

impl AgentEvent {
    pub open spec fn view(&self) -> EventView
        decreases self,
    {
        match self {
            AgentEvent::TextDelta { text } => EventView::TextDelta { text: text@ },
            AgentEvent::ReasoningDelta { text } => EventView::ReasoningDelta { text: text@ },
            AgentEvent::ToolCall { id, call } => EventView::ToolCall { id: id@, call: call@ },
            AgentEvent::ToolResult { id, is_error, output, diff } => EventView::ToolResult {
                id: id@,
                is_error: *is_error,
                output: output.deep_view(),
                diff: diff.deep_view(),
            },
            AgentEvent::Done { status, result, error, session_id } => EventView::Done {
                status: *status,
                result: result.deep_view(),
                error: error.deep_view(),
                session_id: session_id.deep_view(),
            },
            AgentEvent::Subagent { parent_tool_use_id, event } => EventView::Subagent {
                parent_tool_use_id: parent_tool_use_id@,
                event: Box::new((**event).view()),
            },
        }
    }
}

/// `shown` is what `cap` makes of `text`.
pub open spec fn cut<F: Fn(String) -> String>(cap: &F, text: Seq<char>, shown: String) -> bool {
    exists|s: String| s@ == text && #[trigger] call_ensures(*cap, (s,), shown)
}

/// `event` is `whole` with the output of a tool and the result of a run cut by
/// `cap`, and otherwise the same.
pub open spec fn capped<F: Fn(String) -> String>(
    cap: &F,
    whole: EventView,
    event: AgentEvent,
) -> bool {
    match whole {
        EventView::ToolResult { id, is_error, output: Some(text), diff } => {
            &&& event matches AgentEvent::ToolResult { id: i, is_error: e, output: Some(o), diff: d }
            &&& i@ == id
            &&& e == is_error
            &&& cut(cap, text, o)
            &&& d.deep_view() == diff
        },
        EventView::Done { status, result: Some(text), error, session_id } => {
            &&& event matches AgentEvent::Done { status: st, result: Some(r), error: e, session_id: s }
            &&& st == status
            &&& cut(cap, text, r)
            &&& e.deep_view() == error
            &&& s.deep_view() == session_id
        },
        _ => event@ == whole,
    }
}

/// `events` are `wholes`, each capped.
pub open spec fn all_capped<F: Fn(String) -> String>(
    cap: &F,
    wholes: Seq<EventView>,
    events: Seq<AgentEvent>,
) -> bool {
    &&& events.len() == wholes.len()
    &&& forall|i: int| 0 <= i < wholes.len() ==> capped(cap, wholes[i], #[trigger] events[i])
}

/// `event` is `whole`, an event under a tool call, with what is inside capped.
pub open spec fn capped_inside<F: Fn(String) -> String>(
    cap: &F,
    whole: EventView,
    event: AgentEvent,
) -> bool {
    &&& whole matches EventView::Subagent { parent_tool_use_id: parent, event: inside }
    &&& event matches AgentEvent::Subagent { parent_tool_use_id: p, event: e }
    &&& p@ == parent
    &&& capped(cap, *inside, *e)
}

/// `events` are `wholes`, events under a tool call, each with what is inside
/// capped.
pub open spec fn all_capped_inside<F: Fn(String) -> String>(
    cap: &F,
    wholes: Seq<EventView>,
    events: Seq<AgentEvent>,
) -> bool {
    &&& events.len() == wholes.len()
    &&& forall|i: int|
        0 <= i < wholes.len() ==> capped_inside(cap, wholes[i], #[trigger] events[i])
}

/// `event` under the tool call `parent`.
pub open spec fn tagged(parent: Seq<char>, event: EventView) -> EventView {
    EventView::Subagent { parent_tool_use_id: parent, event: Box::new(event) }
}

/// Each of `events` under the tool call `parent`.
pub open spec fn all_tagged(parent: Seq<char>, events: Seq<EventView>) -> Seq<EventView> {
    events.map_values(|e: EventView| tagged(parent, e))
}

/// Puts an event of a subagent under the tool call that spawned it.
pub fn tag(parent: &str, event: AgentEvent) -> (r: AgentEvent)
    ensures
        r@ == tagged(parent@, event@),
        r matches AgentEvent::Subagent { event: e, .. } && *e == event,
{
    AgentEvent::Subagent { parent_tool_use_id: parent.to_owned(), event: Box::new(event) }
}

/// What an event says is all that it holds, and it says it of itself.
pub proof fn lemma_event_says_what_it_holds(event: AgentEvent)
    ensures
        event matches AgentEvent::TextDelta { text } ==> event@ == (EventView::TextDelta {
            text: text@,
        }),
        event matches AgentEvent::ReasoningDelta { text } ==> event@
            == (EventView::ReasoningDelta { text: text@ }),
        event matches AgentEvent::ToolCall { id, call } ==> {
            &&& event@ == (EventView::ToolCall { id: id@, call: call@ })
            &&& call matches ToolCall::Exec { command } ==> call@ == (ToolCallView::Exec {
                command: command@,
            })
            &&& call matches ToolCall::ReadFile { path } ==> call@ == (ToolCallView::ReadFile {
                path: path@,
            })
            &&& call matches ToolCall::Unknown { name, input } ==> call@
                == (ToolCallView::Unknown { name: name@, input: json_view(input) })
        },
        event matches AgentEvent::ToolResult { id, is_error, output, diff } ==> {
            &&& event@ matches EventView::ToolResult { id: i, is_error: e, output: o, diff: d }
            &&& i == id@
            &&& e == is_error
            &&& o is Some <==> output is Some
            &&& output matches Some(text) ==> o == Some(text@)
            &&& d is Some <==> diff is Some
            &&& diff matches Some(text) ==> d == Some(text@)
        },
        event matches AgentEvent::Done { status, result, error, session_id } ==> {
            &&& event@ matches EventView::Done { status: st, result: r, error: e, session_id: s }
            &&& st == status
            &&& r is Some <==> result is Some
            &&& result matches Some(text) ==> r == Some(text@)
            &&& e is Some <==> error is Some
            &&& error matches Some(text) ==> e == Some(text@)
            &&& s is Some <==> session_id is Some
            &&& session_id matches Some(text) ==> s == Some(text@)
        },
        event matches AgentEvent::Subagent { parent_tool_use_id, event: inside } ==> event@
            == (EventView::Subagent {
            parent_tool_use_id: parent_tool_use_id@,
            event: Box::new(inside@),
        }),
{
}

/// Capping touches the output of a tool and the result of a run, and nothing
/// else: every other event is the same, and so is every other part of these
/// two. What stands in place of a text is an answer of `cap` to that text.
pub proof fn lemma_capping_cuts_outputs_alone<F: Fn(String) -> String>(
    cap: &F,
    whole: EventView,
    event: AgentEvent,
)
    requires
        capped(cap, whole, event),
    ensures
        !(whole is ToolResult) && !(whole is Done) ==> event@ == whole,
        whole matches EventView::ToolResult { id, is_error, output, diff } ==> {
            &&& event matches AgentEvent::ToolResult { id: i, is_error: e, output: o, diff: d }
            &&& i@ == id
            &&& e == is_error
            &&& d.deep_view() == diff
            &&& o is Some <==> output is Some
            &&& output matches Some(text) ==> exists|s: String|
                s@ == text && #[trigger] call_ensures(*cap, (s,), o->0)
        },
        whole matches EventView::Done { status, result, error, session_id } ==> {
            &&& event matches AgentEvent::Done { status: st, result: r, error: e, session_id: s }
            &&& st == status
            &&& e.deep_view() == error
            &&& s.deep_view() == session_id
            &&& r is Some <==> result is Some
            &&& result matches Some(text) ==> exists|s: String|
                s@ == text && #[trigger] call_ensures(*cap, (s,), r->0)
        },
{
    lemma_event_says_what_it_holds(event);
}

/// Capping a list caps each event in its place, and neither adds nor drops
/// one; under a tool call it caps what is inside, and keeps the call.
pub proof fn lemma_capping_keeps_every_event<F: Fn(String) -> String>(
    cap: &F,
    wholes: Seq<EventView>,
    events: Seq<AgentEvent>,
    i: int,
)
    requires
        0 <= i < wholes.len() || 0 <= i < events.len(),
    ensures
        all_capped(cap, wholes, events) ==> wholes.len() == events.len() && capped(
            cap,
            wholes[i],
            events[i],
        ),
        all_capped_inside(cap, wholes, events) ==> {
            &&& wholes.len() == events.len()
            &&& wholes[i] matches EventView::Subagent { parent_tool_use_id: parent, event: inside }
            &&& events[i] matches AgentEvent::Subagent { parent_tool_use_id: p, event: e }
            &&& p@ == parent
            &&& capped(cap, *inside, *e)
        },
{
    if all_capped_inside(cap, wholes, events) {
        assert(capped_inside(cap, wholes[i], events[i]));
    }
}

/// Tagging keeps every event as it is, in its place, under the tool call.
pub proof fn lemma_tagging_keeps_every_event(
    parent: Seq<char>,
    events: Seq<EventView>,
    i: int,
)
    requires
        0 <= i < events.len(),
    ensures
        all_tagged(parent, events).len() == events.len(),
        all_tagged(parent, events)[i] == (EventView::Subagent {
            parent_tool_use_id: parent,
            event: Box::new(events[i]),
        }),
        tagged(parent, events[i]) == all_tagged(parent, events)[i],
{
}

} // verus!
