//! A subagent's transcript: lines of JSON, each one message, turned into
//! events.

use vstd::prelude::*;
use vstd::string::*;

use crate::event::{all_capped, cut, AgentEvent, EventView, ToolCall, ToolCallView};
use crate::json::{
    items_of, json_from_str, json_view, member, parse_text, seen, string_of, views, Json, JsonView,
};
use crate::text::{joined, nonempty, same_text};

verus! {

/// The text of one block of a message: that of its `text` member or, where
/// `plain` blocks count, a string itself. A block with nothing in it is none.
pub open spec fn block_text(block: JsonView, plain: bool) -> Option<Seq<char>> {
    match block {
        JsonView::String(s) => if plain {
            nonempty(Some(s))
        } else {
            None
        },
        _ => nonempty(string_of(block.get("text"@))),
    }
}

/// The texts of the blocks that have one, in order.
pub open spec fn block_texts(blocks: Seq<JsonView>, plain: bool) -> Seq<Seq<char>> {
    blocks.filter_map(|block: JsonView| block_text(block, plain))
}

/// The text of a message's content, where it has any: a string is itself, an
/// array gives the texts of its blocks, each on a line of its own.
pub open spec fn content_text(content: Option<JsonView>) -> Option<Seq<char>> {
    match content {
        Some(JsonView::String(s)) => nonempty(Some(s)),
        Some(JsonView::Array(blocks)) => nonempty(Some(joined(block_texts(blocks, true), "\n"@))),
        _ => None,
    }
}

/// The arguments of a tool call: a string is read as JSON, an object stands
/// for itself, and nothing else counts.
pub open spec fn arguments_of(call: JsonView) -> Option<JsonView> {
    match call.get("arguments"@) {
        Some(JsonView::String(s)) => json_from_str(s),
        Some(JsonView::Object(members)) => Some(JsonView::Object(members)),
        _ => None,
    }
}

/// A tool call's arguments read alike as a string of JSON and as an inline
/// object: a call that holds a text which reads as `object`, and one that
/// holds `object` itself, both have the arguments `object`.
pub proof fn lemma_arguments_read_alike(
    encoded: JsonView,
    inline: JsonView,
    text: Seq<char>,
    object: JsonView,
)
    requires
        object is Object,
        json_from_str(text) == Some(object),
        encoded.get("arguments"@) == Some(JsonView::String(text)),
        inline.get("arguments"@) == Some(object),
    ensures
        arguments_of(encoded) == Some(object),
        arguments_of(inline) == Some(object),
{
}

/// A call has no arguments where the member is missing, where it is neither a
/// string nor an object, and where it is a string that is not JSON.
pub proof fn lemma_nothing_else_is_arguments(call: JsonView)
    requires
        match call.get("arguments"@) {
            Some(JsonView::String(text)) => json_from_str(text) is None,
            Some(JsonView::Object(_)) => false,
            _ => true,
        },
    ensures
        arguments_of(call) is None,
{
}

/// The argument `key`, where it is a string with something in it.
pub open spec fn argument(input: Option<JsonView>, key: Seq<char>) -> Option<Seq<char>> {
    nonempty(string_of(member(input, key)))
}

/// `text`, or nothing to show.
pub open spec fn or_empty(text: Option<Seq<char>>) -> Seq<char> {
    match text {
        Some(t) => t,
        None => Seq::empty(),
    }
}

/// The tool call `name` with its arguments.
pub open spec fn typed_call(name: Seq<char>, input: Option<JsonView>) -> ToolCallView {
    if name == "run_terminal_command"@ {
        ToolCallView::Exec { command: or_empty(argument(input, "command"@)) }
    } else if name == "read_file"@ {
        ToolCallView::ReadFile {
            path: if argument(input, "path"@) is Some {
                or_empty(argument(input, "path"@))
            } else if argument(input, "file_path"@) is Some {
                or_empty(argument(input, "file_path"@))
            } else {
                or_empty(argument(input, "target_file"@))
            },
        }
    } else {
        ToolCallView::Unknown { name, input }
    }
}

/// The event of one entry of a message's `tool_calls`; an entry without an id
/// gives none.
pub open spec fn call_event(call: JsonView) -> Option<EventView> {
    match string_of(call.get("id"@)) {
        Some(id) => Some(
            EventView::ToolCall {
                id,
                call: typed_call(
                    match string_of(call.get("name"@)) {
                        Some(name) => name,
                        None => "tool"@,
                    },
                    arguments_of(call),
                ),
            },
        ),
        None => None,
    }
}

/// The text of an assistant's message, as at most one event.
pub open spec fn line_text(line: JsonView) -> Seq<EventView> {
    match content_text(line.get("content"@)) {
        Some(text) => seq![EventView::TextDelta { text: text + "\n\n"@ }],
        None => Seq::empty(),
    }
}

/// The events of one transcript line, with no output cut.
pub open spec fn line_views(line: JsonView) -> Seq<EventView> {
    match string_of(line.get("type"@)) {
        Some(kind) => if kind == "assistant"@ {
            line_text(line) + items_of(line.get("tool_calls"@)).filter_map(
                |call: JsonView| call_event(call),
            )
        } else if kind == "reasoning"@ {
            let texts = block_texts(items_of(line.get("summary"@)), false);
            if texts.len() == 0 {
                Seq::empty()
            } else {
                seq![EventView::ReasoningDelta { text: joined(texts, "\n\n"@) + "\n\n"@ }]
            }
        } else if kind == "tool_result"@ {
            match string_of(line.get("tool_call_id"@)) {
                Some(id) => seq![
                    EventView::ToolResult {
                        id,
                        is_error: false,
                        output: content_text(line.get("content"@)),
                        diff: None,
                    },
                ],
                None => Seq::empty(),
            }
        } else {
            Seq::empty()
        },
        None => Seq::empty(),
    }
}

/// A transcript line speaks, thinks, calls a tool or gives a tool's result. It
/// never ends a run and never speaks for another agent.
pub proof fn lemma_line_never_ends_a_run(line: JsonView, i: int)
    requires
        0 <= i < line_views(line).len(),
    ensures
        !(line_views(line)[i] is Done),
        !(line_views(line)[i] is Subagent),
{
    let views = line_views(line);
    let calls = items_of(line.get("tool_calls"@)).filter_map(|call: JsonView| call_event(call));
    if string_of(line.get("type"@)) == Some("assistant"@) && i >= line_text(line).len() {
        assert(calls.contains(views[i]));
        items_of(line.get("tool_calls"@)).lemma_filter_map_contains(
            |call: JsonView| call_event(call),
            views[i],
        );
    }
}

/// The text of one block, as [`block_text`] has it.
fn text_of_block(block: &Json, plain: bool) -> (r: Option<&str>)
    ensures
        match r {
            Some(text) => block_text(block@, plain) == Some(text@),
            None => block_text(block@, plain) is None,
        },
{
    let found: Option<&str> = match block {
        Json::String(s) => if plain {
            Some(s.as_str())
        } else {
            None
        },
        _ => match block.get("text") {
            Some(text) => text.as_str(),
            None => None,
        },
    };
    match found {
        Some(text) => if text.is_empty() {
            None
        } else {
            Some(text)
        },
        None => None,
    }
}

/// The texts of the blocks that have one, `sep` between every two; `None`
/// where no block has one.
fn join_blocks(blocks: &Vec<Json>, plain: bool, sep: &str) -> (r: Option<String>)
    ensures
        match r {
            Some(text) => {
                &&& block_texts(views(blocks@), plain).len() > 0
                &&& text@ == joined(block_texts(views(blocks@), plain), sep@)
            },
            None => block_texts(views(blocks@), plain).len() == 0,
        },
{
    let mut out: String = String::new();
    let mut any: bool = false;
    let ghost all = views(blocks@);
    let ghost f = |block: JsonView| block_text(block, plain);
    for i in 0..blocks.len()
        invariant
            all == views(blocks@),
            f == |block: JsonView| block_text(block, plain),
            out@ == joined(all.take(i as int).filter_map(f), sep@),
            any == (all.take(i as int).filter_map(f).len() > 0),
    {
        let ghost before = all.take(i as int).filter_map(f);
        proof {
            all.lemma_filter_map_take_succ(f, i as int);
        }
        if let Some(text) = text_of_block(&blocks[i], plain) {
            proof {
                let after = before + seq![text@];
                assert(all.take(i + 1).filter_map(f) == after);
                assert(after.drop_last() =~= before);
            }
            if any {
                out.append(sep);
            }
            out.append(text);
            any = true;
            assert(out@ =~= joined(all.take(i + 1).filter_map(f), sep@));
        } else {
            assert(all.take(i + 1).filter_map(f) =~= before);
        }
    }
    assert(all.take(all.len() as int) =~= all);
    if any {
        Some(out)
    } else {
        None
    }
}

/// The text of a message's content: a plain string, or an array that mixes
/// strings and `{text}` blocks. `None` where there is nothing to show.
pub fn text_content(content: Option<&Json>) -> (r: Option<String>)
    ensures
        r.deep_view() == content_text(seen(content)),
{
    let text: String = match content {
        Some(Json::String(s)) => s.clone(),
        Some(Json::Array(blocks)) => {
            assert(content->0@->Array_0 =~= views(blocks@));
            match join_blocks(blocks, true, "\n") {
                Some(text) => text,
                None => String::new(),
            }
        },
        _ => {
            return None;
        },
    };
    if text.as_str().is_empty() {
        None
    } else {
        Some(text)
    }
}

/// The arguments of a tool call. They are stored as a string of JSON; an
/// object in place of the string is taken too.
pub fn tool_arguments(call: &Json) -> (r: Option<Json>)
    ensures
        json_view(r) == arguments_of(call@),
{
    let arguments: &Json = call.get("arguments")?;
    match arguments {
        Json::String(s) => parse_text(s.as_str()),
        Json::Object(_) => Some(arguments.clone()),
        _ => None,
    }
}

/// The argument `key`, where it is a string with something in it.
fn string_argument(input: &Option<Json>, key: &str) -> (r: Option<String>)
    ensures
        r.deep_view() == argument(json_view(*input), key@),
{
    let found: &str = input.as_ref()?.get(key)?.as_str()?;
    if found.is_empty() {
        None
    } else {
        Some(found.to_owned())
    }
}

/// Types the handful of tool names that are worth a chip of their own; every
/// other call is known by its name and keeps its arguments.
pub fn typed_grok_tool(name: &str, input: Option<Json>) -> (r: ToolCall)
    ensures
        r@ == typed_call(name@, json_view(input)),
{
    if same_text(name, "run_terminal_command") {
        let command: String = match string_argument(&input, "command") {
            Some(command) => command,
            None => String::new(),
        };
        ToolCall::Exec { command }
    } else if same_text(name, "read_file") {
        let path: String = match string_argument(&input, "path") {
            Some(path) => path,
            None => match string_argument(&input, "file_path") {
                Some(path) => path,
                None => match string_argument(&input, "target_file") {
                    Some(path) => path,
                    None => String::new(),
                },
            },
        };
        ToolCall::ReadFile { path }
    } else {
        ToolCall::Unknown { name: name.to_owned(), input }
    }
}

/// The event of one tool call; a call without an id gives none.
fn tool_call_event(call: &Json) -> (r: Option<AgentEvent>)
    ensures
        match call_event(call@) {
            Some(view) => r matches Some(event) && event@ == view && event is ToolCall,
            None => r is None,
        },
{
    let id: &str = call.get("id")?.as_str()?;
    let name: &str = match call.get("name") {
        Some(Json::String(name)) => name.as_str(),
        _ => "tool",
    };
    Some(
        AgentEvent::ToolCall {
            id: id.to_owned(),
            call: typed_grok_tool(name, tool_arguments(call)),
        },
    )
}

/// The output of a tool as it is shown: its text, cut by `cap`.
fn shown_output<F: Fn(String) -> String>(content: Option<&Json>, cap: &F) -> (r: Option<String>)
    requires
        forall|s: String| call_requires(*cap, (s,)),
    ensures
        match content_text(seen(content)) {
            Some(text) => r matches Some(shown) && cut(cap, text, shown),
            None => r is None,
        },
{
    match text_content(content) {
        Some(text) => Some(cap(text)),
        None => None,
    }
}

/// Maps one transcript line to its events. An `assistant` line is its text, if
/// any, and its tool calls; a `reasoning` line is its summary; a `tool_result`
/// resolves its call, the output cut by `cap`. Any other line is silent.
pub fn line_events<F: Fn(String) -> String>(line: &Json, cap: &F) -> (r: Vec<AgentEvent>)
    requires
        forall|s: String| call_requires(*cap, (s,)),
    ensures
        all_capped(cap, line_views(line@), r@),
{
    let mut events: Vec<AgentEvent> = Vec::new();
    let kind: &str = match line.get("type") {
        Some(Json::String(kind)) => kind.as_str(),
        _ => {
            return events;
        },
    };
    if same_text(kind, "assistant") {
        if let Some(text) = text_content(line.get("content")) {
            events.push(AgentEvent::TextDelta { text: text.concat("\n\n") });
        }
        let ghost spoken = line_text(line@);
        let ghost f = |call: JsonView| call_event(call);
        assert(all_capped(cap, spoken, events@));
        if let Some(Json::Array(calls)) = line.get("tool_calls") {
            let ghost all = views(calls@);
            assert(items_of(line@.get("tool_calls"@)) =~= all);
            assert(spoken + all.take(0).filter_map(f) =~= spoken);
            for i in 0..calls.len()
                invariant
                    all == views(calls@),
                    f == |call: JsonView| call_event(call),
                    all_capped(cap, spoken + all.take(i as int).filter_map(f), events@),
            {
                let ghost before = spoken + all.take(i as int).filter_map(f);
                proof {
                    all.lemma_filter_map_take_succ(f, i as int);
                }
                match tool_call_event(&calls[i]) {
                    Some(event) => {
                        assert(spoken + all.take(i + 1).filter_map(f) =~= before.push(event@));
                        events.push(event);
                    },
                    None => {
                        assert(spoken + all.take(i + 1).filter_map(f) =~= before);
                    },
                }
            }
            assert(all.take(all.len() as int) =~= all);
        } else {
            assert(spoken + items_of(line@.get("tool_calls"@)).filter_map(f) =~= spoken);
        }
    } else if same_text(kind, "reasoning") {
        if let Some(Json::Array(blocks)) = line.get("summary") {
            assert(items_of(line@.get("summary"@)) =~= views(blocks@));
            if let Some(text) = join_blocks(blocks, false, "\n\n") {
                events.push(AgentEvent::ReasoningDelta { text: text.concat("\n\n") });
            }
        }
    } else if same_text(kind, "tool_result") {
        if let Some(Json::String(id)) = line.get("tool_call_id") {
            events.push(
                AgentEvent::ToolResult {
                    id: id.clone(),
                    is_error: false,
                    output: shown_output(line.get("content"), cap),
                    diff: None,
                },
            );
        }
    }
    events
}

/// An assistant's line says its text first, whatever tools it calls: where its
/// content is a string with something in it, the first event is that text, and
/// so it is for the texts of an array of blocks.
pub proof fn lemma_assistant_speaks_first(line: JsonView, text: Seq<char>)
    requires
        line.get("type"@) == Some(JsonView::String("assistant"@)),
        content_text(line.get("content"@)) == Some(text),
    ensures
        line_views(line).len() > 0,
        line_views(line)[0] == (EventView::TextDelta { text: text + "\n\n"@ }),
        forall|i: int| 0 < i < line_views(line).len() ==> (#[trigger] line_views(line)[i]) is ToolCall,
{
    assert forall|i: int| 0 < i < line_views(line).len() implies (
    #[trigger] line_views(line)[i]) is ToolCall by {
        lemma_past_the_text_are_calls(line, i);
    }
}

/// An assistant's line without a text has no event but its calls.
pub proof fn lemma_silent_assistant_only_calls(line: JsonView, i: int)
    requires
        line.get("type"@) == Some(JsonView::String("assistant"@)),
        content_text(line.get("content"@)) is None,
        0 <= i < line_views(line).len(),
    ensures
        line_views(line)[i] is ToolCall,
{
    lemma_past_the_text_are_calls(line, i);
}

proof fn lemma_past_the_text_are_calls(line: JsonView, i: int)
    requires
        line.get("type"@) == Some(JsonView::String("assistant"@)),
        line_text(line).len() <= i < line_views(line).len(),
    ensures
        line_views(line)[i] is ToolCall,
{
    let items = items_of(line.get("tool_calls"@));
    let calls = items.filter_map(|call: JsonView| call_event(call));
    assert(calls.contains(line_views(line)[i]));
    items.lemma_filter_map_contains(|call: JsonView| call_event(call), line_views(line)[i]);
}

/// One more call adds its event behind all others of the line: it carries the
/// call's id, its name (`tool` where it has none) and its arguments. A call
/// without an id adds none. Nothing else of the line changes.
pub proof fn lemma_one_more_call(
    line: JsonView,
    longer: JsonView,
    calls: Seq<JsonView>,
    call: JsonView,
)
    requires
        line.get("type"@) == Some(JsonView::String("assistant"@)),
        longer.get("type"@) == Some(JsonView::String("assistant"@)),
        line.get("content"@) == longer.get("content"@),
        line.get("tool_calls"@) == Some(JsonView::Array(calls)),
        longer.get("tool_calls"@) == Some(JsonView::Array(calls.push(call))),
    ensures
        call.get("id"@) matches Some(JsonView::String(id)) ==> {
            &&& line_views(longer).len() == line_views(line).len() + 1
            &&& line_views(longer).drop_last() == line_views(line)
            &&& line_views(longer).last() matches EventView::ToolCall { id: i, call: c }
            &&& i == id
            &&& call.get("name"@) matches Some(JsonView::String(name)) ==> c == typed_call(
                name,
                arguments_of(call),
            )
            &&& !(call.get("name"@) matches Some(JsonView::String(_))) ==> c == typed_call(
                "tool"@,
                arguments_of(call),
            )
        },
        !(call.get("id"@) matches Some(JsonView::String(_))) ==> line_views(longer) == line_views(
            line,
        ),
{
    let f = |call: JsonView| call_event(call);
    let more = calls.push(call);
    more.lemma_filter_map_take_succ(f, calls.len() as int);
    assert(more.take(calls.len() as int) =~= calls);
    assert(more.take(more.len() as int) =~= more);
    if call.get("id"@) matches Some(JsonView::String(_)) {
        assert(line_views(longer) =~= line_views(line).push(call_event(call)->0));
        assert(line_views(longer).drop_last() =~= line_views(line));
    } else {
        assert(line_views(longer) =~= line_views(line));
    }
}

/// A line whose `tool_calls` is no array, or an empty one, says its text at
/// most.
pub proof fn lemma_no_calls_no_call_events(line: JsonView)
    requires
        line.get("type"@) == Some(JsonView::String("assistant"@)),
        line.get("tool_calls"@) matches Some(JsonView::Array(calls)) ==> calls.len() == 0,
    ensures
        line_views(line).len() <= 1,
        line_views(line).len() == 1 <==> content_text(line.get("content"@)) is Some,
{
    let f = |call: JsonView| call_event(call);
    let items = items_of(line.get("tool_calls"@));
    assert(items.filter_map(f) =~= Seq::empty());
}

/// Of all tools a terminal command shows its command, and a read file its
/// path. A command is shown as it is given, and is empty where none is.
pub proof fn lemma_terminal_command_shows_its_command(input: Option<JsonView>)
    ensures
        typed_call("run_terminal_command"@, input) is Exec,
        input matches Some(v) ==> {
            v.get("command"@) matches Some(JsonView::String(command)) ==> typed_call(
                "run_terminal_command"@,
                input,
            ) == (ToolCallView::Exec { command })
        },
        !(input matches Some(v) && v.get("command"@) matches Some(JsonView::String(_)))
            ==> typed_call("run_terminal_command"@, input) == (ToolCallView::Exec {
            command: Seq::empty(),
        }),
{
    if input is Some {
        if let Some(JsonView::String(command)) = input->0.get("command"@) {
            if command.len() == 0 {
                assert(command =~= Seq::empty());
            }
        }
    }
}

/// A read file shows the path it was given under the first of its three names
/// that has one with something in it, and none where none has.
pub proof fn lemma_read_file_shows_its_path(input: JsonView, path: Seq<char>)
    ensures
        ({
            let call = typed_call("read_file"@, Some(input));
            let shown = ToolCallView::ReadFile { path };
            let none = ToolCallView::ReadFile { path: Seq::empty() };
            let here = Some(JsonView::String(path));
            let first = input.get("path"@) matches Some(JsonView::String(p)) && p.len() > 0;
            let second = input.get("file_path"@) matches Some(JsonView::String(p)) && p.len() > 0;
            let third = input.get("target_file"@) matches Some(JsonView::String(p)) && p.len() > 0;
            &&& first && input.get("path"@) == here ==> call == shown
            &&& !first && second && input.get("file_path"@) == here ==> call == shown
            &&& !first && !second && third && input.get("target_file"@) == here ==> call == shown
            &&& !first && !second && !third ==> call == none
        }),
        typed_call("read_file"@, None) == (ToolCallView::ReadFile { path: Seq::empty() }),
{
    reveal_strlit("run_terminal_command");
    reveal_strlit("read_file");
    assert("run_terminal_command"@.len() != "read_file"@.len());
}

/// Any other tool is shown by its name and keeps its arguments as they are.
pub proof fn lemma_other_tools_keep_name_and_arguments(name: Seq<char>, input: Option<JsonView>)
    requires
        name != "run_terminal_command"@,
        name != "read_file"@,
    ensures
        typed_call(name, input) == (ToolCallView::Unknown { name, input }),
{
}

/// A string of arguments means what it reads as, whatever that is, and an
/// inline object means itself.
pub proof fn lemma_arguments_mean_what_they_hold(call: JsonView)
    ensures
        call.get("arguments"@) matches Some(JsonView::String(text)) ==> arguments_of(call)
            == json_from_str(text),
        call.get("arguments"@) matches Some(value) && value is Object ==> arguments_of(call)
            == call.get("arguments"@),
{
}

/// The text of a message's content. A string is its own text. An array gives
/// one more line for each block more that has a text, be it a string or a
/// `text` member, and nothing for a block that has none. Nothing else has a
/// text, and a text is never empty.
pub proof fn lemma_content_reads_block_by_block(
    blocks: Seq<JsonView>,
    block: JsonView,
    text: Seq<char>,
)
    ensures
        content_text(None) is None,
        content_text(Some(JsonView::String(text))) == (if text.len() > 0 {
            Some(text)
        } else {
            None
        }),
        !(block is String) && !(block is Array) ==> content_text(Some(block)) is None,
        content_text(Some(JsonView::Array(Seq::empty()))) is None,
        ({
            let before = content_text(Some(JsonView::Array(blocks)));
            let after = content_text(Some(JsonView::Array(blocks.push(block))));
            let says = block == JsonView::String(text) || (!(block is String) && block.get("text"@)
                == Some(JsonView::String(text)));
            &&& says && text.len() > 0 ==> after == Some(
                match before {
                    Some(b) => b + "\n"@ + text,
                    None => text,
                },
            )
            &&& says && text.len() == 0 ==> after == before
            &&& !(block is String) && !(block.get("text"@) matches Some(JsonView::String(_)))
                ==> after == before
        }),
{
    let f = |b: JsonView| block_text(b, true);
    let more = blocks.push(block);
    let had = blocks.filter_map(f);
    more.lemma_filter_map_take_succ(f, blocks.len() as int);
    assert(more.take(blocks.len() as int) =~= blocks);
    assert(more.take(more.len() as int) =~= more);
    assert(Seq::<JsonView>::empty().filter_map(f) =~= Seq::empty());
    lemma_texts_have_something(blocks, true);
    if block_text(block, true) is Some {
        let t = block_text(block, true)->0;
        assert(more.filter_map(f) =~= had.push(t));
        assert(had.push(t).drop_last() =~= had);
    } else {
        assert(more.filter_map(f) =~= had);
    }
}

/// Texts with something in them join to a text with something in it.
proof fn lemma_texts_have_something(blocks: Seq<JsonView>, plain: bool)
    ensures
        block_texts(blocks, plain).len() > 0 <==> joined(
            block_texts(blocks, plain),
            "\n"@,
        ).len() > 0,
    decreases blocks.len(),
{
    let f = |b: JsonView| block_text(b, plain);
    let texts = block_texts(blocks, plain);
    if blocks.len() == 0 {
        assert(texts =~= Seq::empty());
    } else {
        let rest = blocks.drop_last();
        blocks.lemma_filter_map_take_succ(f, rest.len() as int);
        assert(blocks.take(rest.len() as int) =~= rest);
        assert(blocks.take(blocks.len() as int) =~= blocks);
        lemma_texts_have_something(rest, plain);
        if block_text(blocks.last(), plain) is Some {
            let t = block_text(blocks.last(), plain)->0;
            assert(texts =~= rest.filter_map(f).push(t));
            assert(texts.last() == t);
        } else {
            assert(texts =~= rest.filter_map(f));
        }
    }
}

/// A line of reasoning gives the texts of its summary as one event, with a
/// blank line behind each, and nothing where no part of the summary has one.
pub proof fn lemma_reasoning_reads_part_by_part(
    line: JsonView,
    longer: JsonView,
    parts: Seq<JsonView>,
    part: JsonView,
    text: Seq<char>,
)
    requires
        line.get("type"@) == Some(JsonView::String("reasoning"@)),
        longer.get("type"@) == Some(JsonView::String("reasoning"@)),
        line.get("summary"@) == Some(JsonView::Array(parts)),
        longer.get("summary"@) == Some(JsonView::Array(parts.push(part))),
    ensures
        parts.len() == 0 ==> line_views(line).len() == 0,
        line_views(line).len() <= 1,
        line_views(line).len() == 1 ==> line_views(line)[0] is ReasoningDelta,
        part.get("text"@) == Some(JsonView::String(text)) && text.len() > 0 ==> {
            &&& line_views(longer).len() == 1
            &&& line_views(longer)[0] matches EventView::ReasoningDelta { text: t }
            &&& t == (if line_views(line).len() == 0 {
                text
            } else {
                line_views(line)[0]->ReasoningDelta_text + text
            }) + "\n\n"@
        },
        !(part.get("text"@) matches Some(JsonView::String(t)) && t.len() > 0) ==> line_views(longer)
            == line_views(line),
{
    reveal_strlit("assistant");
    reveal_strlit("reasoning");
    assert("assistant"@ != "reasoning"@) by {
        assert("assistant"@[0] != "reasoning"@[0]);
    }
    let f = |b: JsonView| block_text(b, false);
    let more = parts.push(part);
    let had = parts.filter_map(f);
    more.lemma_filter_map_take_succ(f, parts.len() as int);
    assert(more.take(parts.len() as int) =~= parts);
    assert(more.take(more.len() as int) =~= more);
    if parts.len() == 0 {
        assert(had =~= Seq::empty());
    }
    if block_text(part, false) is Some {
        let t = block_text(part, false)->0;
        assert(more.filter_map(f) =~= had.push(t));
        assert(had.push(t).drop_last() =~= had);
        if had.len() > 0 {
            assert(joined(had.push(t), "\n\n"@) + "\n\n"@ =~= (joined(had, "\n\n"@) + "\n\n"@) + t
                + "\n\n"@);
        }
    } else {
        assert(more.filter_map(f) =~= had);
    }
}

/// A line of reasoning whose summary is no array is silent.
pub proof fn lemma_reasoning_without_summary_is_silent(line: JsonView)
    requires
        line.get("type"@) == Some(JsonView::String("reasoning"@)),
        !(line.get("summary"@) matches Some(JsonView::Array(_))),
    ensures
        line_views(line).len() == 0,
{
    reveal_strlit("assistant");
    reveal_strlit("reasoning");
    assert("assistant"@ != "reasoning"@) by {
        assert("assistant"@[0] != "reasoning"@[0]);
    }
    let f = |b: JsonView| block_text(b, false);
    assert(Seq::<JsonView>::empty().filter_map(f) =~= Seq::empty());
}

/// A tool's result resolves the call that it names, without an error and with
/// the text of its content; one that names no call is silent.
pub proof fn lemma_tool_result_resolves_its_call(line: JsonView)
    requires
        line.get("type"@) == Some(JsonView::String("tool_result"@)),
    ensures
        line.get("tool_call_id"@) matches Some(JsonView::String(id)) ==> {
            &&& line_views(line).len() == 1
            &&& line_views(line)[0] == (EventView::ToolResult {
                id,
                is_error: false,
                output: content_text(line.get("content"@)),
                diff: None,
            })
        },
        !(line.get("tool_call_id"@) matches Some(JsonView::String(_))) ==> line_views(line).len()
            == 0,
{
    reveal_strlit("assistant");
    reveal_strlit("reasoning");
    reveal_strlit("tool_result");
    assert("tool_result"@.len() != "assistant"@.len());
    assert("tool_result"@.len() != "reasoning"@.len());
}

/// Any other line is silent: what the system and the user say, and what is of
/// no kind.
pub proof fn lemma_other_lines_are_silent(line: JsonView)
    requires
        line.get("type"@) != Some(JsonView::String("assistant"@)),
        line.get("type"@) != Some(JsonView::String("reasoning"@)),
        line.get("type"@) != Some(JsonView::String("tool_result"@)),
    ensures
        line_views(line).len() == 0,
{
}

} // verus!
