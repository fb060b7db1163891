//! When a subagent is finished, by the two files that its parent's session
//! keeps of it: `meta.json`, written at the spawn and again at the end, and
//! `output.json`, written only at the end. That `output.json` is there at all
//! is the sign of the end, whatever it holds.

use vstd::prelude::*;
use vstd::string::*;

use crate::event::{capped, AgentEvent, DoneStatus, EventView};
use crate::json::{
    json_from_slice, json_view, member, parse_bytes, seen, string_of, Json, JsonView,
};
use crate::text::same_text;

verus! {

/// The status words of a subagent that still works.
pub open spec fn is_working(word: Seq<char>) -> bool {
    word == "running"@ || word == "pending"@ || word == "started"@
}

/// The status of a finished subagent: the word that `meta` has left the
/// working state with or, where `output.json` is `written`, the word that
/// `meta` has (`completed` where it has none). `None` for one that still works.
pub open spec fn final_word(meta: Option<JsonView>, written: bool) -> Option<Seq<char>> {
    let status = string_of(member(meta, "status"@));
    if status is Some && !is_working(status->0) {
        status
    } else if written {
        if status is Some {
            status
        } else {
            Some("completed"@)
        }
    } else {
        None
    }
}

/// How a run that ended with `word` ended. A word that nobody knows is a
/// failure.
pub open spec fn status_of(word: Seq<char>) -> DoneStatus {
    if word == "completed"@ || word == "complete"@ || word == "succeeded"@ || word == "success"@ {
        DoneStatus::Completed
    } else if word == "canceled"@ || word == "cancelled"@ || word == "interrupted"@ || word
        == "stopped"@ || word == "killed"@ {
        DoneStatus::Interrupted
    } else {
        DoneStatus::Errored
    }
}

/// The event that closes a subagent, with no result cut; `None` while it
/// works. It is `written` that says whether there is an `output.json`; what can
/// be read of it is `output`.
pub open spec fn terminal_view(
    meta: Option<JsonView>,
    written: bool,
    output: Option<JsonView>,
) -> Option<EventView> {
    match final_word(meta, written) {
        Some(word) => Some(
            EventView::Done {
                status: status_of(word),
                result: string_of(member(output, "output"@)),
                error: None,
                session_id: None,
            },
        ),
        None => None,
    }
}

/// What a file holds, read as JSON; `None` where the file cannot be read or is
/// not JSON.
pub open spec fn file_view(bytes: Option<Seq<u8>>) -> Option<JsonView> {
    match bytes {
        Some(b) => json_from_slice(b),
        None => None,
    }
}

/// The bytes of a file that may be missing.
pub open spec fn bytes_of(file: Option<Vec<u8>>) -> Option<Seq<u8>> {
    match file {
        Some(bytes) => Some(bytes@),
        None => None,
    }
}

/// Maps a final status word to the status that a run is closed with.
pub fn done_status(word: &str) -> (r: DoneStatus)
    ensures
        r == status_of(word@),
{
    if same_text(word, "completed") || same_text(word, "complete") || same_text(word, "succeeded")
        || same_text(word, "success") {
        DoneStatus::Completed
    } else if same_text(word, "canceled") || same_text(word, "cancelled") || same_text(
        word,
        "interrupted",
    ) || same_text(word, "stopped") || same_text(word, "killed") {
        DoneStatus::Interrupted
    } else {
        DoneStatus::Errored
    }
}

/// The member `key` of `value`, where it is a string.
fn string_member<'a>(value: Option<&'a Json>, key: &str) -> (r: Option<&'a str>)
    ensures
        match r {
            Some(s) => string_of(member(seen(value), key@)) == Some(s@),
            None => string_of(member(seen(value), key@)) is None,
        },
{
    value?.get(key)?.as_str()
}

/// How a subagent ended.
#[derive(Debug, PartialEq)]
pub struct Ending {
    pub status: DoneStatus,
    pub result: Option<String>,
}

impl Ending {
    /// The event that closes the subagent, with no result cut.
    pub open spec fn view(&self) -> EventView {
        EventView::Done {
            status: self.status,
            result: self.result.deep_view(),
            error: None,
            session_id: None,
        }
    }

    /// The event that closes the subagent, its result cut by `cap`.
    pub fn event<F: Fn(String) -> String>(&self, cap: &F) -> (r: AgentEvent)
        requires
            forall|s: String| call_requires(*cap, (s,)),
        ensures
            capped(cap, self@, r),
    {
        AgentEvent::Done {
            status: self.status,
            result: match &self.result {
                Some(text) => Some(cap(text.clone())),
                None => None,
            },
            error: None,
            session_id: None,
        }
    }
}

/// How a subagent ended, by what its two files hold and by whether there is an
/// `output.json`; `None` while it works.
pub fn ending(meta: Option<&Json>, written: bool, output: Option<&Json>) -> (r: Option<Ending>)
    ensures
        ending_view(r) == terminal_view(seen(meta), written, seen(output)),
{
    let status: Option<&str> = string_member(meta, "status");
    let result: Option<&str> = string_member(output, "output");
    let word: &str = match status {
        Some(word) => {
            let working: bool = same_text(word, "running") || same_text(word, "pending")
                || same_text(word, "started");
            if working && !written {
                return None;
            }
            word
        },
        None => {
            if !written {
                return None;
            }
            "completed"
        },
    };
    Some(
        Ending {
            status: done_status(word),
            result: match result {
                Some(text) => Some(text.to_owned()),
                None => None,
            },
        },
    )
}

/// The view of an ending that may not have come.
pub open spec fn ending_view(ending: Option<Ending>) -> Option<EventView> {
    match ending {
        Some(e) => Some(e@),
        None => None,
    }
}

/// Reads what a file holds as JSON; `None` where there is no file or it is not
/// JSON.
pub fn read_json(file: &Option<Vec<u8>>) -> (r: Option<Json>)
    ensures
        json_view(r) == file_view(bytes_of(*file)),
{
    match file {
        Some(bytes) => parse_bytes(bytes.as_slice()),
        None => None,
    }
}

/// How a subagent ended, by the bytes of its two files, each where there is
/// one; `None` while it works. An `output.json` that cannot be read closes it
/// too, without a result.
pub fn terminal_state(meta: &Option<Vec<u8>>, output: &Option<Vec<u8>>) -> (r: Option<Ending>)
    ensures
        ending_view(r) == terminal_view(
            file_view(bytes_of(*meta)),
            output is Some,
            file_view(bytes_of(*output)),
        ),
{
    let written: bool = output.is_some();
    let meta: Option<Json> = read_json(meta);
    let output: Option<Json> = read_json(output);
    ending(meta.as_ref(), written, output.as_ref())
}

/// An `output.json` always closes the subagent, whatever it holds and whatever
/// else is known.
pub proof fn lemma_output_closes(meta: Option<JsonView>, output: Option<JsonView>)
    ensures
        terminal_view(meta, true, output) matches Some(EventView::Done { result, .. }) && result
            == string_of(member(output, "output"@)),
{
}

/// A status that has left the working state closes the subagent, with or
/// without an output, and a word that is neither a success nor an
/// interruption closes it as failed.
pub proof fn lemma_final_status_closes(
    meta: Option<JsonView>,
    written: bool,
    output: Option<JsonView>,
    word: Seq<char>,
)
    requires
        string_of(member(meta, "status"@)) == Some(word),
        !is_working(word),
    ensures
        terminal_view(meta, written, output) matches Some(EventView::Done { status, .. }) && status
            == status_of(word),
{
}

/// A subagent that does not say it has ended, and has no `output.json`, stays
/// open.
pub proof fn lemma_working_stays_open(meta: Option<JsonView>, output: Option<JsonView>)
    requires
        string_of(member(meta, "status"@)) matches Some(word) ==> is_working(word),
    ensures
        terminal_view(meta, false, output) is None,
{
}

/// Every status but `running`, `pending` and `started` closes the subagent,
/// with an `output.json` or without: four words as a completion, five as an
/// interruption, and any other, `failed` as well as one that nobody knows, as
/// a failure.
pub proof fn lemma_any_other_status_closes(
    meta: JsonView,
    written: bool,
    output: Option<JsonView>,
    word: Seq<char>,
)
    requires
        meta.get("status"@) == Some(JsonView::String(word)),
        word != "running"@,
        word != "pending"@,
        word != "started"@,
    ensures
        terminal_view(Some(meta), written, output) matches Some(EventView::Done { status, .. }) && {
            let completed = word == "completed"@ || word == "complete"@ || word == "succeeded"@
                || word == "success"@;
            let interrupted = word == "canceled"@ || word == "cancelled"@ || word
                == "interrupted"@ || word == "stopped"@ || word == "killed"@;
            &&& completed <==> status == DoneStatus::Completed
            &&& interrupted <==> status == DoneStatus::Interrupted
            &&& !completed && !interrupted <==> status == DoneStatus::Errored
        },
{
    lemma_words_differ();
}

/// A closed subagent has what its `output.json` holds as the string `output`
/// for a result, and none where it holds no such string; the end has no error
/// and no session of its own.
pub proof fn lemma_result_is_the_output(
    meta: Option<JsonView>,
    written: bool,
    output: Option<JsonView>,
    text: Seq<char>,
)
    requires
        terminal_view(meta, written, output) is Some,
    ensures
        terminal_view(meta, written, output) matches Some(
            EventView::Done { result, error, session_id, .. },
        ) && {
            &&& result == Some(text) <==> (output matches Some(o) && o.get("output"@) == Some(
                JsonView::String(text),
            ))
            &&& error is None
            &&& session_id is None
        },
{
}

/// The words of the statuses, by what tells them apart.
proof fn lemma_words_differ()
    ensures
        "completed"@.len() == 9 && "completed"@[0] == 'c' && "completed"@[1] == 'o',
        "complete"@.len() == 8 && "complete"@[0] == 'c' && "complete"@[1] == 'o',
        "succeeded"@.len() == 9 && "succeeded"@[0] == 's',
        "success"@.len() == 7 && "success"@[0] == 's' && "success"@[1] == 'u',
        "canceled"@.len() == 8 && "canceled"@[0] == 'c' && "canceled"@[1] == 'a',
        "cancelled"@.len() == 9 && "cancelled"@[0] == 'c' && "cancelled"@[1] == 'a',
        "interrupted"@.len() == 11,
        "stopped"@.len() == 7 && "stopped"@[0] == 's' && "stopped"@[1] == 't',
        "killed"@.len() == 6 && "killed"@[0] == 'k',
        "running"@.len() == 7 && "running"@[0] == 'r',
        "pending"@.len() == 7 && "pending"@[0] == 'p',
        "started"@.len() == 7 && "started"@[0] == 's' && "started"@[1] == 't' && "started"@[2]
            == 'a',
        "stopped"@[2] == 'o',
{
    reveal_strlit("completed");
    reveal_strlit("complete");
    reveal_strlit("succeeded");
    reveal_strlit("success");
    reveal_strlit("canceled");
    reveal_strlit("cancelled");
    reveal_strlit("interrupted");
    reveal_strlit("stopped");
    reveal_strlit("killed");
    reveal_strlit("running");
    reveal_strlit("pending");
    reveal_strlit("started");
}

/// The three statuses of a subagent at work leave it open until there is an
/// `output.json`, which closes it, though not as a completion.
pub proof fn lemma_working_status_waits_for_the_output(
    meta: JsonView,
    output: Option<JsonView>,
    word: Seq<char>,
)
    requires
        meta.get("status"@) == Some(JsonView::String(word)),
        word == "running"@ || word == "pending"@ || word == "started"@,
    ensures
        terminal_view(Some(meta), false, output) is None,
        terminal_view(Some(meta), true, output) matches Some(EventView::Done { status, .. })
            && status == DoneStatus::Errored,
{
    lemma_words_differ();
}

/// Without a status it is the `output.json` alone that says: once it is there
/// the subagent has completed, and until then it is at work.
pub proof fn lemma_without_a_status_the_output_says(
    meta: Option<JsonView>,
    output: Option<JsonView>,
)
    requires
        !(meta matches Some(m) && m.get("status"@) matches Some(JsonView::String(_))),
    ensures
        terminal_view(meta, false, output) is None,
        terminal_view(meta, true, output) matches Some(EventView::Done { status, .. }) && status
            == DoneStatus::Completed,
{
}

/// A file is what its bytes read as, and a missing one holds nothing.
pub proof fn lemma_file_is_what_its_bytes_read_as(file: Option<Vec<u8>>)
    ensures
        file matches Some(bytes) ==> bytes_of(file) == Some(bytes@) && file_view(bytes_of(file))
            == json_from_slice(bytes@),
        file is None ==> bytes_of(file) is None && file_view(bytes_of(file)) is None,
{
}

/// An ending says its status and its result, and no other one does.
pub proof fn lemma_ending_says_what_it_holds(ending: Ending)
    ensures
        ending@ matches EventView::Done { status, result, error, session_id } && {
            &&& status == ending.status
            &&& result is Some <==> ending.result is Some
            &&& ending.result matches Some(text) ==> result == Some(text@)
            &&& error is None
            &&& session_id is None
        },
        ending_view(Some(ending)) == Some(ending@),
        ending_view(None) is None,
{
}

} // verus!
