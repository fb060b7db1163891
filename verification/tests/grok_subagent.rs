use zeron::event::{AgentEvent, DoneStatus, HarnessId, ToolCall};
use zeron::harvest::{Action, Harvester, Input, DISCOVER_TIMEOUT_MS, POLL_MS};
use zeron::json::{from_value, parse_text, Json};
use zeron::lifecycle::{done_status, ending, read_json, terminal_state, Ending};
use zeron::spawn::{
    is_spawn, scan_notification, scan_update, subagent_id_from_update, Harvest, PendingSpawns,
};
use zeron::store::{
    find_cwd_dir, lifecycle_path, sessions_root, subagent_dirs, transcript_path,
};
use zeron::tail::Tail;
use zeron::transcript::{line_events, text_content, tool_arguments, typed_grok_tool};

fn json(text: &str) -> Json {
    parse_text(text).expect("JSON")
}

fn whole(text: String) -> String {
    text
}

fn first_five(text: String) -> String {
    text.chars().take(5).collect()
}

fn spawn_call() -> Json {
    json(
        r#"{
            "sessionUpdate": "tool_call",
            "toolCallId": "call-abc-1",
            "title": "spawn_subagent",
            "rawInput": { "description": "Probe sleeper", "subagent_type": "explore" },
            "_meta": {
                "x.ai/tool": { "name": "spawn_subagent", "kind": "task" },
                "subagentBackground": true
            }
        }"#,
    )
}

#[test]
fn spawn_marker_reads_vendor_meta() {
    assert!(is_spawn(&spawn_call()));
    assert!(!is_spawn(&json(
        r#"{ "_meta": { "x.ai/tool": { "name": "get_command_or_subagent_output" } } }"#
    )));
    assert!(!is_spawn(&json(r#"{ "toolCallId": "t1" }"#)));
}

#[test]
fn subagent_id_parses_from_raw_output_text() {
    // A completion as a live session sends it.
    let update = json(
        r#"{
            "toolCallId": "call-abc-1",
            "status": "completed",
            "rawOutput": {
                "type": "Text",
                "text": "Subagent started in background.\nsubagent_id: 01a01457-4f92-78c3-8a4f-914b975717b6\ntype: explore\ndescription: Probe sleeper"
            }
        }"#,
    );
    assert_eq!(
        subagent_id_from_update(&update).as_deref(),
        Some("01a01457-4f92-78c3-8a4f-914b975717b6")
    );
    // A first-class field wins.
    assert_eq!(
        subagent_id_from_update(&json(r#"{ "rawOutput": { "subagent_id": "abc-123" } }"#))
            .as_deref(),
        Some("abc-123")
    );
    // A path or a sentence must not become a document's id.
    assert_eq!(
        subagent_id_from_update(&json(
            r#"{ "rawOutput": { "text": "subagent_id: /tmp/evil path" } }"#
        )),
        None
    );
    assert_eq!(subagent_id_from_update(&json(r#"{ "rawOutput": {} }"#)), None);
}

#[test]
fn subagent_id_edge_shapes() {
    let of_text = |text: &str| {
        subagent_id_from_update(&Json::Object(vec![(
            "rawOutput".to_string(),
            Json::Object(vec![("text".to_string(), Json::String(text.to_string()))]),
        )]))
    };
    // White space around the id goes, Unicode white space and a carriage
    // return included.
    assert_eq!(of_text("subagent_id:\u{a0}\t x-1 \u{3000}\r\n").as_deref(), Some("x-1"));
    // The last line needs no line feed.
    assert_eq!(of_text("a\nsubagent_id:x-1").as_deref(), Some("x-1"));
    // The prefix stands at the beginning of a line.
    assert_eq!(of_text(" subagent_id: x-1"), None);
    // The first line with the prefix decides, even if what it names is refused.
    assert_eq!(of_text("subagent_id:\nsubagent_id: x-1"), None);
    assert_eq!(of_text("subagent_id: a_b\nsubagent_id: x-1"), None);
    // Sixty-four characters are an id, sixty-five are not.
    let long = "a".repeat(64);
    assert_eq!(of_text(&format!("subagent_id: {long}")), Some(long.clone()));
    assert_eq!(of_text(&format!("subagent_id: {long}b")), None);
    assert_eq!(of_text("subagent_id: \u{e9}"), None);
    // A field that is no string falls back to the text; one that is empty does
    // not.
    assert_eq!(
        subagent_id_from_update(&json(
            r#"{ "rawOutput": { "subagent_id": 7, "text": "subagent_id: x-2" } }"#
        ))
        .as_deref(),
        Some("x-2")
    );
    assert_eq!(
        subagent_id_from_update(&json(
            r#"{ "rawOutput": { "subagent_id": "", "text": "subagent_id: x-2" } }"#
        )),
        None
    );
    assert_eq!(subagent_id_from_update(&json(r#"{ "status": "completed" }"#)), None);
}

#[test]
fn assistant_line_maps_text_and_tool_calls() {
    let line = json(
        r#"{
            "type": "assistant",
            "content": "Reading the file now.",
            "tool_calls": [{
                "id": "call-t1",
                "name": "read_file",
                "arguments": "{\"path\":\"/tmp/a.txt\"}"
            }]
        }"#,
    );
    let events = line_events(&line, &whole);
    assert_eq!(events.len(), 2);
    assert!(matches!(
        &events[0],
        AgentEvent::TextDelta { text } if text == "Reading the file now.\n\n"
    ));
    assert!(matches!(
        &events[1],
        AgentEvent::ToolCall { id, call: ToolCall::ReadFile { path } }
            if id == "call-t1" && path == "/tmp/a.txt"
    ));
}

#[test]
fn assistant_array_content_and_exec_typing() {
    let line = json(
        r#"{
            "type": "assistant",
            "content": ["Done.", ""],
            "tool_calls": [{
                "id": "call-t2",
                "name": "run_terminal_command",
                "arguments": "{\"command\":\"ls -la\"}"
            }]
        }"#,
    );
    let events = line_events(&line, &whole);
    assert!(matches!(
        &events[0],
        AgentEvent::TextDelta { text } if text == "Done.\n\n"
    ));
    assert!(matches!(
        &events[1],
        AgentEvent::ToolCall { call: ToolCall::Exec { command }, .. } if command == "ls -la"
    ));
}

#[test]
fn reasoning_summary_joins_to_one_delta() {
    let line = json(
        r#"{
            "type": "reasoning",
            "summary": [
                { "type": "summary_text", "text": "First thought." },
                { "type": "summary_text", "text": "Second thought." }
            ]
        }"#,
    );
    let events = line_events(&line, &whole);
    assert!(matches!(
        &events[..],
        [AgentEvent::ReasoningDelta { text }]
            if text == "First thought.\n\nSecond thought.\n\n"
    ));
}

#[test]
fn tool_result_resolves_call() {
    let line = json(
        r#"{
            "type": "tool_result",
            "tool_call_id": "call-t1",
            "content": "1→hello"
        }"#,
    );
    let events = line_events(&line, &whole);
    assert!(matches!(
        &events[..],
        [AgentEvent::ToolResult { id, is_error: false, output: Some(out), .. }]
            if id == "call-t1" && out == "1→hello"
    ));
}

#[test]
fn system_user_and_junk_lines_are_silent() {
    assert!(line_events(&json(r#"{ "type": "system", "content": "prompt" }"#), &whole).is_empty());
    assert!(line_events(&json(r#"{ "type": "user", "content": "hi" }"#), &whole).is_empty());
    assert!(line_events(&json(r#"{ "unexpected": true }"#), &whole).is_empty());
    assert!(line_events(&json(r#""not an object""#), &whole).is_empty());
}

#[test]
fn line_events_edge_shapes() {
    // Text and calls are both optional; a call without an id is dropped, one
    // without a name is called `tool`.
    assert_eq!(
        line_events(
            &json(
                r#"{ "type": "assistant", "content": "", "tool_calls": [
                    { "name": "read_file" },
                    { "id": "c1" },
                    { "id": "c2", "name": "grep", "arguments": { "q": "x" } },
                    { "id": "c3", "name": "grep", "arguments": "not json" }
                ] }"#
            ),
            &whole
        ),
        vec![
            AgentEvent::ToolCall {
                id: "c1".to_string(),
                call: ToolCall::Unknown { name: "tool".to_string(), input: None },
            },
            AgentEvent::ToolCall {
                id: "c2".to_string(),
                call: ToolCall::Unknown {
                    name: "grep".to_string(),
                    input: Some(json(r#"{ "q": "x" }"#)),
                },
            },
            AgentEvent::ToolCall {
                id: "c3".to_string(),
                call: ToolCall::Unknown { name: "grep".to_string(), input: None },
            },
        ]
    );
    assert_eq!(
        line_events(&json(r#"{ "type": "assistant", "tool_calls": 3 }"#), &whole),
        vec![]
    );
    // A summary takes `text` members only, and none at all is silence.
    assert_eq!(
        line_events(
            &json(r#"{ "type": "reasoning", "summary": ["a", { "text": "" }, { "text": "b" }] }"#),
            &whole
        ),
        vec![AgentEvent::ReasoningDelta { text: "b\n\n".to_string() }]
    );
    assert_eq!(
        line_events(&json(r#"{ "type": "reasoning", "summary": ["a"] }"#), &whole),
        vec![]
    );
    assert_eq!(line_events(&json(r#"{ "type": "reasoning" }"#), &whole), vec![]);
    // A result without content has no output; one without a call is silent.
    assert_eq!(
        line_events(&json(r#"{ "type": "tool_result", "tool_call_id": "c" }"#), &whole),
        vec![AgentEvent::ToolResult {
            id: "c".to_string(),
            is_error: false,
            output: None,
            diff: None,
        }]
    );
    assert_eq!(
        line_events(&json(r#"{ "type": "tool_result", "content": "x" }"#), &whole),
        vec![]
    );
    // The output of a tool is cut, what the assistant says is not.
    assert_eq!(
        line_events(
            &json(r#"{ "type": "tool_result", "tool_call_id": "c", "content": "1234567" }"#),
            &first_five
        ),
        vec![AgentEvent::ToolResult {
            id: "c".to_string(),
            is_error: false,
            output: Some("12345".to_string()),
            diff: None,
        }]
    );
    assert_eq!(
        line_events(&json(r#"{ "type": "assistant", "content": "1234567" }"#), &first_five),
        vec![AgentEvent::TextDelta { text: "1234567\n\n".to_string() }]
    );
}

#[test]
fn text_content_joins_blocks() {
    let of = |text: &str| text_content(Some(&json(text)));
    assert_eq!(of(r#""plain""#).as_deref(), Some("plain"));
    assert_eq!(of(r#""""#), None);
    assert_eq!(of(r#"["a", { "text": "b" }, { "x": 1 }, "", { "text": "" }, 4, "c"]"#).as_deref(),
        Some("a\nb\nc"));
    assert_eq!(of("[]"), None);
    assert_eq!(of(r#"{ "text": "b" }"#), None);
    assert_eq!(of("7"), None);
    assert_eq!(text_content(None), None);
}

#[test]
fn tool_arguments_take_a_string_or_an_object() {
    assert_eq!(
        tool_arguments(&json(r#"{ "arguments": "{\"a\": [1, 2.5, -3, null, true]}" }"#)),
        Some(json(r#"{ "a": [1, 2.5, -3, null, true] }"#))
    );
    assert_eq!(
        tool_arguments(&json(r#"{ "arguments": { "a": [1, { "b": "c" }] } }"#)),
        Some(json(r#"{ "a": [1, { "b": "c" }] }"#))
    );
    for text in [
        r#"{ "arguments": "" }"#,
        r#"{ "arguments": "not json" }"#,
        r#"{ "arguments": [1] }"#,
        r#"{ "arguments": 1 }"#,
        r#"{ "arguments": true }"#,
        r#"{ "arguments": null }"#,
    ] {
        assert_eq!(tool_arguments(&json(text)), None);
    }
    assert_eq!(tool_arguments(&json("{}")), None);
}

#[test]
fn printed_and_inline_arguments_read_alike() {
    let mut inner = serde_json::Map::new();
    inner.insert("k".to_string(), serde_json::Value::from("a\"\\\n\u{2192}"));
    inner.insert("n".to_string(), serde_json::Value::from(-7));
    let mut outer = serde_json::Map::new();
    outer.insert("l".to_string(), serde_json::Value::from(vec![1, 2]));
    outer.insert("o".to_string(), serde_json::Value::Object(inner));
    let object = serde_json::Value::Object(outer);
    let call = |arguments: Json| Json::Object(vec![("arguments".to_string(), arguments)]);
    let inline = tool_arguments(&call(from_value(object.clone())));
    assert_eq!(inline, Some(from_value(object.clone())));
    assert_eq!(tool_arguments(&call(Json::String(object.to_string()))), inline);
}

#[test]
fn typed_tools_fall_back_on_their_arguments() {
    let read = |text: &str| typed_grok_tool("read_file", Some(json(text)));
    let path = |path: &str| ToolCall::ReadFile { path: path.to_string() };
    assert_eq!(read(r#"{ "path": "a", "file_path": "b", "target_file": "c" }"#), path("a"));
    assert_eq!(read(r#"{ "path": "", "file_path": "b", "target_file": "c" }"#), path("b"));
    assert_eq!(read(r#"{ "path": 1, "target_file": "c" }"#), path("c"));
    assert_eq!(read("{}"), path(""));
    assert_eq!(typed_grok_tool("read_file", None), path(""));
    assert_eq!(
        typed_grok_tool("run_terminal_command", None),
        ToolCall::Exec { command: String::new() }
    );
    assert_eq!(
        typed_grok_tool("other", Some(json("[1]"))),
        ToolCall::Unknown { name: "other".to_string(), input: Some(json("[1]")) }
    );
}

#[test]
fn scan_update_launches_harvester_on_spawn_completion() {
    let mut pending = PendingSpawns::new();
    let mut harvesters: Vec<Harvest> = Vec::new();

    scan_update(&spawn_call(), "sess-1", &mut pending, &mut harvesters);
    assert!(pending.contains("call-abc-1"));
    assert!(harvesters.is_empty());

    // An unrelated tool that completes must not harvest.
    scan_update(
        &json(
            r#"{ "toolCallId": "call-other", "status": "completed",
                 "rawOutput": { "text": "subagent_id: not-for-you" } }"#,
        ),
        "sess-1",
        &mut pending,
        &mut harvesters,
    );
    assert!(harvesters.is_empty());

    scan_update(
        &json(
            r#"{ "toolCallId": "call-abc-1", "status": "completed",
                 "rawOutput": { "text": "Subagent started in background.\nsubagent_id: 01a-1\n" } }"#,
        ),
        "sess-1",
        &mut pending,
        &mut harvesters,
    );
    assert_eq!(harvesters.len(), 1);
    assert!(!pending.contains("call-abc-1"));
    assert_eq!(
        harvesters[0],
        Harvest {
            parent_tool_use_id: "call-abc-1".to_string(),
            parent_session_id: "sess-1".to_string(),
            subagent_id: "01a-1".to_string(),
        }
    );

    // The completion again, without the marker: the call is resolved.
    scan_update(
        &json(
            r#"{ "toolCallId": "call-abc-1", "status": "completed",
                 "rawOutput": { "text": "subagent_id: 01a-1" } }"#,
        ),
        "sess-1",
        &mut pending,
        &mut harvesters,
    );
    assert_eq!(harvesters.len(), 1);
}

#[test]
fn failed_spawn_never_harvests() {
    let mut pending = PendingSpawns::new();
    let mut harvesters: Vec<Harvest> = Vec::new();
    scan_update(&spawn_call(), "sess-1", &mut pending, &mut harvesters);
    scan_update(
        &json(r#"{ "toolCallId": "call-abc-1", "status": "failed" }"#),
        "sess-1",
        &mut pending,
        &mut harvesters,
    );
    assert!(harvesters.is_empty());
    assert!(pending.is_empty());
}

#[test]
fn completion_without_an_id_only_resolves() {
    let mut pending = PendingSpawns::new();
    let mut harvesters: Vec<Harvest> = Vec::new();
    scan_update(&spawn_call(), "sess-1", &mut pending, &mut harvesters);
    scan_update(
        &json(r#"{ "toolCallId": "call-abc-1", "status": "in_progress" }"#),
        "sess-1",
        &mut pending,
        &mut harvesters,
    );
    assert!(pending.contains("call-abc-1"));
    scan_update(
        &json(r#"{ "toolCallId": "call-abc-1", "status": "completed" }"#),
        "sess-1",
        &mut pending,
        &mut harvesters,
    );
    assert!(harvesters.is_empty());
    assert!(pending.is_empty());
    scan_update(&json(r#"{ "status": "completed" }"#), "sess-1", &mut pending, &mut harvesters);
    assert!(harvesters.is_empty());
}

#[test]
fn only_updates_of_this_grok_session_are_scanned() {
    let params = Json::Object(vec![
        ("sessionId".to_string(), Json::String("s-1".to_string())),
        ("update".to_string(), spawn_call()),
    ]);
    let opens = |harness: HarnessId, method: &str, session: &str| {
        let mut pending = PendingSpawns::new();
        let mut harvesters: Vec<Harvest> = Vec::new();
        scan_notification(harness, method, &params, session, &mut pending, &mut harvesters);
        !pending.is_empty()
    };
    assert!(opens(HarnessId::Grok, "session/update", "s-1"));
    assert!(!opens(HarnessId::Other(1), "session/update", "s-1"));
    assert!(!opens(HarnessId::Grok, "session/prompt", "s-1"));
    assert!(!opens(HarnessId::Grok, "session/update", "s-2"));
}

fn file(text: &str) -> Option<Vec<u8>> {
    Some(text.as_bytes().to_vec())
}

fn ended(meta: &str, output: &str) -> Option<Ending> {
    terminal_state(&file(meta), &file(output))
}

#[test]
fn terminal_state_goes_by_status_and_output() {
    // Still at work.
    for word in ["running", "pending", "started"] {
        assert_eq!(
            terminal_state(&file(&format!(r#"{{ "status": "{word}" }}"#)), &None),
            None
        );
    }
    assert_eq!(terminal_state(&None, &None), None);
    assert_eq!(terminal_state(&file(r#"{ "status": 3 }"#), &None), None);
    // That there is an output at all closes, whatever can be read of it.
    for output in ["not json", "", r#"{ "schema_version": 1 }"#, r#"{ "output": 4 }"#] {
        assert_eq!(
            ended(r#"{ "status": "running" }"#, output),
            Some(Ending { status: DoneStatus::Errored, result: None })
        );
        assert_eq!(
            ended(r#"{ "status": 3 }"#, output),
            Some(Ending { status: DoneStatus::Completed, result: None })
        );
        assert_eq!(
            ended(r#"{ "status": "completed" }"#, output),
            Some(Ending { status: DoneStatus::Completed, result: None })
        );
    }
    // An output alone is a completion.
    assert_eq!(
        terminal_state(&None, &file(r#"{ "output": "ok" }"#)),
        Some(Ending { status: DoneStatus::Completed, result: Some("ok".to_string()) })
    );
    // An output beside a status that still works closes as failed.
    assert_eq!(
        ended(r#"{ "status": "running" }"#, r#"{ "output": "ok" }"#),
        Some(Ending { status: DoneStatus::Errored, result: Some("ok".to_string()) })
    );
    // A final status needs no output.
    assert_eq!(
        terminal_state(&file(r#"{ "status": "cancelled" }"#), &None),
        Some(Ending { status: DoneStatus::Interrupted, result: None })
    );
    // A word that nobody knows closes as failed.
    assert_eq!(
        ended(r#"{ "status": "exploded" }"#, r#"{ "output": "" }"#),
        Some(Ending { status: DoneStatus::Errored, result: Some(String::new()) })
    );
    assert_eq!(read_json(&file("{")), None);
    assert_eq!(
        ending(Some(&json(r#"{ "status": "success" }"#)), false, None),
        Some(Ending { status: DoneStatus::Completed, result: None })
    );
    assert_eq!(
        ending(Some(&json(r#"{ "status": "started" }"#)), true, None),
        Some(Ending { status: DoneStatus::Errored, result: None })
    );
    assert_eq!(ending(Some(&json(r#"{ "status": "started" }"#)), false, None), None);
}

#[test]
fn status_words_map_to_their_status() {
    for word in ["completed", "complete", "succeeded", "success"] {
        assert_eq!(done_status(word), DoneStatus::Completed);
    }
    for word in ["canceled", "cancelled", "interrupted", "stopped", "killed"] {
        assert_eq!(done_status(word), DoneStatus::Interrupted);
    }
    for word in ["", "failed", "error", "Completed", "running"] {
        assert_eq!(done_status(word), DoneStatus::Errored);
    }
}

#[test]
fn done_carries_a_cut_result() {
    let ending = Ending { status: DoneStatus::Completed, result: Some("1234567".to_string()) };
    assert_eq!(
        ending.event(&first_five),
        AgentEvent::Done {
            status: DoneStatus::Completed,
            result: Some("12345".to_string()),
            error: None,
            session_id: None,
        }
    );
}



// A transcript as it stands when the harvest begins.
const TRANSCRIPT: &str =
    "{\"type\":\"system\",\"content\":\"You are a subagent.\"}\n\
     {\"type\":\"user\",\"content\":\"Read /w/PLAN.md and summarize.\"}\n\
     {\"type\":\"reasoning\",\"summary\":[{\"type\":\"summary_text\",\"text\":\"Reading the plan.\"}],\"status\":\"completed\"}\n\
     {\"type\":\"assistant\",\"content\":\"\",\"tool_calls\":[{\"id\":\"call-r1\",\"name\":\"read_file\",\"arguments\":\"{\\\"path\\\":\\\"/w/PLAN.md\\\"}\"}]}\n";

// What the subagent writes at its end.
const LAST_LINES: &str =
    "{\"type\":\"tool_result\",\"tool_call_id\":\"call-r1\",\"content\":\"1→plan body\"}\n\
     {\"type\":\"assistant\",\"content\":\"The plan is sound.\",\"tool_calls\":[]}\n";

fn job() -> Harvest {
    Harvest {
        parent_tool_use_id: "call-sp-1".to_string(),
        parent_session_id: "s-1".to_string(),
        subagent_id: "sub-0001".to_string(),
    }
}

fn sent(action: Action, into: &mut Vec<AgentEvent>) {
    match action {
        Action::Send(events) => into.extend(events),
        other => panic!("expected events to send, got {other:?}"),
    }
}

#[test]
fn spawned_subagent_tails_the_store_into_tagged_events() {
    let running = r#"{"subagent_id":"sub-0001","parent_session_id":"s-1","subagent_type":"explore","description":"Read the plan","status":"running"}"#;
    let completed = r#"{"subagent_id":"sub-0001","parent_session_id":"s-1","status":"completed"}"#;
    let output = r#"{"schema_version":1,"output":"The plan is sound."}"#;

    let mut events: Vec<AgentEvent> = Vec::new();
    let mut harvester = Harvester::new(job());
    let start = TRANSCRIPT.len() as u64;

    // The directory is not there at once.
    assert_eq!(
        harvester.step(
            Input::Searched { found: false, closed: false, elapsed_ms: 0 },
            &whole
        ),
        Action::Find { after_ms: POLL_MS }
    );
    assert_eq!(
        harvester.step(
            Input::Searched { found: true, closed: false, elapsed_ms: 500 },
            &whole
        ),
        Action::Read { after_ms: 0, offset: 0 }
    );
    let action = harvester.step(Input::Fresh(file(TRANSCRIPT)), &whole);
    sent(action, &mut events);
    assert_eq!(harvester.step(Input::Sent(true), &whole), Action::Check);
    // The subagent works on, and its next lines land in two pieces.
    assert_eq!(
        harvester.step(
            Input::Status { meta: file(running), output: None, closed: false },
            &whole
        ),
        Action::Read { after_ms: POLL_MS, offset: start }
    );
    let cut = LAST_LINES.find('\u{2192}').unwrap() + 1;
    let (first, second) = LAST_LINES.as_bytes().split_at(cut);
    let action = harvester.step(Input::Fresh(Some(first.to_vec())), &whole);
    assert_eq!(action, Action::Send(vec![]));
    assert_eq!(harvester.step(Input::Sent(true), &whole), Action::Check);
    // It is finished: one more read keeps its last lines ahead of the end.
    assert_eq!(
        harvester.step(
            Input::Status { meta: file(completed), output: file(output), closed: false },
            &whole
        ),
        Action::Read { after_ms: 0, offset: start + cut as u64 }
    );
    let action = harvester.step(Input::Fresh(Some(second.to_vec())), &whole);
    sent(action, &mut events);
    assert_eq!(harvester.step(Input::Sent(true), &whole), Action::Stop);

    // Every event is tagged to the spawn chip.
    let tagged: Vec<&AgentEvent> = events
        .iter()
        .map(|e| match e {
            AgentEvent::Subagent { parent_tool_use_id, event }
                if parent_tool_use_id == "call-sp-1" =>
            {
                event.as_ref()
            }
            other => panic!("untagged: {other:?}"),
        })
        .collect();
    assert!(tagged.iter().any(|e| matches!(
        e,
        AgentEvent::ReasoningDelta { text } if text.contains("Reading the plan.")
    )));
    assert!(tagged.iter().any(|e| matches!(
        e,
        AgentEvent::ToolCall { id, call: ToolCall::ReadFile { path } }
            if id == "call-r1" && path == "/w/PLAN.md"
    )));
    assert!(tagged.iter().any(|e| matches!(
        e,
        AgentEvent::ToolResult { id, output: Some(out), .. }
            if id == "call-r1" && out.contains("plan body")
    )));
    assert!(tagged.iter().any(|e| matches!(
        e,
        AgentEvent::TextDelta { text } if text.contains("The plan is sound.")
    )));
    // Exactly one end, completed, with the store's output, and it is the last.
    let dones: Vec<&AgentEvent> = tagged
        .iter()
        .filter(|e| matches!(e, AgentEvent::Done { .. }))
        .copied()
        .collect();
    assert!(matches!(
        dones[..],
        [AgentEvent::Done { status: DoneStatus::Completed, result: Some(r), .. }]
            if r == "The plan is sound."
    ));
    assert!(matches!(tagged.last(), Some(AgentEvent::Done { .. })));
    assert_eq!(tagged.len(), 5);
}

#[test]
fn harvest_gives_up_when_the_store_never_shows() {
    let mut harvester = Harvester::new(job());
    assert_eq!(
        harvester.step(
            Input::Searched { found: false, closed: false, elapsed_ms: DISCOVER_TIMEOUT_MS - 1 },
            &whole
        ),
        Action::Find { after_ms: POLL_MS }
    );
    assert_eq!(
        harvester.step(
            Input::Searched { found: false, closed: false, elapsed_ms: DISCOVER_TIMEOUT_MS },
            &whole
        ),
        Action::Stop
    );
    // Over is over.
    assert_eq!(
        harvester.step(
            Input::Searched { found: true, closed: false, elapsed_ms: 0 },
            &whole
        ),
        Action::Stop
    );
    let mut harvester = Harvester::new(job());
    assert_eq!(
        harvester.step(Input::Searched { found: false, closed: true, elapsed_ms: 0 }, &whole),
        Action::Stop
    );
}

fn tailing() -> Harvester {
    let mut harvester = Harvester::new(job());
    harvester.step(Input::Searched { found: true, closed: false, elapsed_ms: 0 }, &whole);
    harvester
}

#[test]
fn harvest_stops_when_nobody_listens() {
    let mut harvester = tailing();
    harvester.step(Input::Fresh(file(TRANSCRIPT)), &whole);
    assert_eq!(harvester.step(Input::Sent(false), &whole), Action::Stop);

    let mut harvester = tailing();
    harvester.step(Input::Fresh(file(TRANSCRIPT)), &whole);
    harvester.step(Input::Sent(true), &whole);
    assert_eq!(
        harvester.step(Input::Status { meta: None, output: None, closed: true }, &whole),
        Action::Stop
    );
}

#[test]
fn harvest_reads_a_missing_transcript_as_nothing() {
    let mut harvester = tailing();
    assert_eq!(harvester.step(Input::Fresh(None), &whole), Action::Send(vec![]));
    assert_eq!(harvester.step(Input::Sent(true), &whole), Action::Check);
    assert_eq!(
        harvester.step(
            Input::Status { meta: file(r#"{"status":"killed"}"#), output: None, closed: true },
            &whole
        ),
        Action::Read { after_ms: 0, offset: 0 }
    );
    let mut events: Vec<AgentEvent> = Vec::new();
    sent(harvester.step(Input::Fresh(None), &whole), &mut events);
    assert_eq!(
        events,
        vec![AgentEvent::Subagent {
            parent_tool_use_id: "call-sp-1".to_string(),
            event: Box::new(AgentEvent::Done {
                status: DoneStatus::Interrupted,
                result: None,
                error: None,
                session_id: None,
            }),
        }]
    );
}

#[test]
fn tail_does_not_care_where_reads_are_cut() {
    let bytes = [TRANSCRIPT.as_bytes(), LAST_LINES.as_bytes(), b"junk\n\n{\"type\":"].concat();
    let mut at_once = Tail::new();
    let expected = at_once.drain_lines(&bytes, &whole);
    assert_eq!(at_once.offset, bytes.len() as u64);
    assert_eq!(at_once.carry, b"{\"type\":".to_vec());
    assert_eq!(expected.len(), 4);
    for cut in 0..bytes.len() {
        let mut tail = Tail::new();
        let mut events = tail.drain_lines(&bytes[..cut], &whole);
        events.extend(tail.drain_lines(&bytes[cut..], &whole));
        assert_eq!(events, expected);
        assert_eq!(tail, at_once);
    }
    let mut tail = Tail::new();
    let mut events: Vec<AgentEvent> = Vec::new();
    for byte in &bytes {
        events.extend(tail.drain_lines(&[*byte], &whole));
    }
    assert_eq!(events, expected);
}

#[test]
fn store_paths() {
    let root = sessions_root(Some("/rig"), Some("/home/u")).unwrap();
    assert_eq!(root.base, "/rig");
    assert!(root.below.is_empty());
    let root = sessions_root(None, Some("/home/u")).unwrap();
    assert_eq!(root.base, "/home/u");
    assert_eq!(root.below, vec![".grok".to_string(), "sessions".to_string()]);
    assert!(sessions_root::<&str>(None, None).is_none());
    assert_eq!(find_cwd_dir(&[false, true, true]), Some(1));
    assert_eq!(find_cwd_dir(&[false, false]), None);
    assert_eq!(find_cwd_dir(&[]), None);
    assert_eq!(
        subagent_dirs(&job()),
        (
            vec!["sub-0001".to_string()],
            vec!["s-1".to_string(), "subagents".to_string(), "sub-0001".to_string()]
        )
    );
    assert_eq!(
        transcript_path(&job()),
        vec!["sub-0001".to_string(), "chat_history.jsonl".to_string()]
    );
    assert_eq!(
        lifecycle_path(&job(), "meta.json"),
        vec![
            "s-1".to_string(),
            "subagents".to_string(),
            "sub-0001".to_string(),
            "meta.json".to_string()
        ]
    );
}
