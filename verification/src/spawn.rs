//! Spawned subagents: which tool calls of a session spawn one, and which
//! subagent a finished spawn names.
//!
//! The updates of a spawn call carry a vendor marker, and the update that
//! completes it names the subagent. From then on the subagent's own files say
//! what it does, so a completed spawn asks for one harvest of them.

use vstd::hash_set::StringHashSet;
use vstd::prelude::*;
use vstd::string::*;

use crate::event::HarnessId;
use crate::json::{member, string_of, Json, JsonView};
use crate::text::{
    characters, field, first_field, lemma_first_line_with_the_prefix_counts,
    lemma_no_line_no_field, lines, same_text, trimmed,
};

verus! {

/// The marker that rides on every update of a spawn call.
pub open spec fn has_spawn_marker(update: JsonView) -> bool {
    string_of(member(member(update.get("_meta"@), "x.ai/tool"@), "name"@)) == Some(
        "spawn_subagent"@,
    )
}

/// A character that an id may hold.
pub open spec fn is_id_char(c: char) -> bool {
    ||| '0' <= c <= '9'
    ||| 'a' <= c <= 'z'
    ||| 'A' <= c <= 'Z'
    ||| c == '-'
}

/// The shape of an id: one to sixty-four characters, each of them an ASCII
/// letter, an ASCII digit or a hyphen.
pub open spec fn is_id(id: Seq<char>) -> bool {
    &&& 0 < id.len() <= 64
    &&& forall|i: int| 0 <= i < id.len() ==> is_id_char(#[trigger] id[i])
}

/// What an update's raw output gives as the subagent's id: its `subagent_id`
/// member or, where that is no string, what its text says on the first line
/// that begins with `subagent_id:`.
pub open spec fn named_id(raw: JsonView) -> Option<Seq<char>> {
    match string_of(raw.get("subagent_id"@)) {
        Some(id) => Some(id),
        None => match string_of(raw.get("text"@)) {
            Some(text) => first_field(lines(text), "subagent_id:"@),
            None => None,
        },
    }
}

/// The id of the subagent that an update names, where it has the shape of one.
pub open spec fn subagent_id(update: JsonView) -> Option<Seq<char>> {
    match update.get("rawOutput"@) {
        Some(raw) => match named_id(raw) {
            Some(id) => if is_id(id) {
                Some(id)
            } else {
                None
            },
            None => None,
        },
        None => None,
    }
}

/// Whether an update belongs to a call that spawns a subagent, by the vendor's
/// marker.
pub fn is_spawn(update: &Json) -> (r: bool)
    ensures
        r == has_spawn_marker(update@),
{
    if let Some(meta) = update.get("_meta") {
        if let Some(tool) = meta.get("x.ai/tool") {
            if let Some(name) = tool.get("name") {
                if let Some(name) = name.as_str() {
                    return same_text(name, "spawn_subagent");
                }
            }
        }
    }
    false
}

/// Whether `id` has the shape of an id.
fn plausible(id: &str) -> (r: bool)
    ensures
        r == is_id(id@),
{
    let chars: Vec<char> = characters(id);
    if chars.len() == 0 || chars.len() > 64 {
        return false;
    }
    for i in 0..chars.len()
        invariant
            chars@ == id@,
            forall|j: int| 0 <= j < i ==> is_id_char(#[trigger] chars@[j]),
    {
        let c: char = chars[i];
        let fits: bool = ('0' <= c && c <= '9') || ('a' <= c && c <= 'z') || ('A' <= c && c <= 'Z')
            || c == '-';
        if !fits {
            return false;
        }
    }
    true
}

/// The id of the subagent that an update's raw output names. It becomes part
/// of a document's id and of a path, so what has not the shape of an id is
/// refused.
pub fn subagent_id_from_update(update: &Json) -> (r: Option<String>)
    ensures
        r.deep_view() == subagent_id(update@),
{
    let raw: &Json = update.get("rawOutput")?;
    let id: String = match raw.get("subagent_id") {
        Some(Json::String(id)) => id.clone(),
        _ => field(raw.get("text")?.as_str()?, "subagent_id:")?,
    };
    if plausible(id.as_str()) {
        Some(id)
    } else {
        None
    }
}

/// The spawn calls that have been opened and not been resolved.
pub struct PendingSpawns {
    calls: StringHashSet,
}

impl PendingSpawns {
    /// The ids of the calls.
    pub closed spec fn view(&self) -> Set<Seq<char>> {
        self.calls@
    }

    /// No call is open.
    pub fn new() -> (r: Self)
        ensures
            r@ == Set::<Seq<char>>::empty(),
    {
        PendingSpawns { calls: StringHashSet::new() }
    }

    /// Whether the call `id` is open.
    pub fn contains(&self, id: &str) -> (r: bool)
        ensures
            r == self@.contains(id@),
    {
        self.calls.contains(id)
    }

    /// Whether no call is open.
    pub fn is_empty(&self) -> (r: bool)
        ensures
            r == self@.is_empty(),
    {
        self.calls.is_empty()
    }
}

/// A harvest to start: the subagent whose files are to be followed, the
/// session that spawned it and the tool call that its events go under.
#[derive(Debug, PartialEq)]
pub struct Harvest {
    pub parent_tool_use_id: String,
    pub parent_session_id: String,
    pub subagent_id: String,
}

/// What a [`Harvest`] names.
pub struct HarvestView {
    pub parent_tool_use_id: Seq<char>,
    pub parent_session_id: Seq<char>,
    pub subagent_id: Seq<char>,
}

impl Harvest {
    pub open spec fn view(&self) -> HarvestView {
        HarvestView {
            parent_tool_use_id: self.parent_tool_use_id@,
            parent_session_id: self.parent_session_id@,
            subagent_id: self.subagent_id@,
        }
    }
}

/// The open calls after `update`, and the harvest that it asks for.
///
/// The marker opens a call; `completed` and `failed` resolve an open one, and
/// a completion that names a subagent asks for its harvest.
pub open spec fn scanned(
    pending: Set<Seq<char>>,
    update: JsonView,
    parent_session_id: Seq<char>,
) -> (Set<Seq<char>>, Option<HarvestView>) {
    match string_of(update.get("toolCallId"@)) {
        Some(id) => {
            let open = if has_spawn_marker(update) {
                pending.insert(id)
            } else {
                pending
            };
            let status = string_of(update.get("status"@));
            if !open.contains(id) {
                (open, None)
            } else if status == Some("completed"@) {
                (
                    open.remove(id),
                    match subagent_id(update) {
                        Some(subagent_id) => Some(
                            HarvestView { parent_tool_use_id: id, parent_session_id, subagent_id },
                        ),
                        None => None,
                    },
                )
            } else if status == Some("failed"@) {
                (open.remove(id), None)
            } else {
                (open, None)
            }
        },
        None => (pending, None),
    }
}

/// `harvests` is `before`, with `asked` behind it where there is one.
pub open spec fn harvests_after(
    before: Seq<Harvest>,
    asked: Option<HarvestView>,
    harvests: Seq<Harvest>,
) -> bool {
    match asked {
        Some(view) => {
            &&& harvests.len() == before.len() + 1
            &&& harvests.drop_last() == before
            &&& harvests.last()@ == view
        },
        None => harvests == before,
    }
}

/// Follows the spawn calls of a session through one update, and adds a harvest
/// where a call resolves with a subagent's id. A completion that names none
/// harvests nothing.
pub fn scan_update(
    update: &Json,
    parent_session_id: &str,
    pending_spawns: &mut PendingSpawns,
    harvests: &mut Vec<Harvest>,
)
    ensures
        final(pending_spawns)@ == scanned(
            old(pending_spawns)@,
            update@,
            parent_session_id@,
        ).0,
        harvests_after(
            old(harvests)@,
            scanned(old(pending_spawns)@, update@, parent_session_id@).1,
            final(harvests)@,
        ),
{
    let id: &str = match update.get("toolCallId") {
        Some(Json::String(id)) => id.as_str(),
        _ => {
            return;
        },
    };
    if is_spawn(update) {
        pending_spawns.calls.insert(id.to_owned());
    }
    if !pending_spawns.contains(id) {
        return;
    }
    let status: &str = match update.get("status") {
        Some(Json::String(status)) => status.as_str(),
        _ => {
            return;
        },
    };
    if same_text(status, "completed") {
        pending_spawns.calls.remove(id);
        if let Some(subagent_id) = subagent_id_from_update(update) {
            let ghost before = harvests@;
            harvests.push(
                Harvest {
                    parent_tool_use_id: id.to_owned(),
                    parent_session_id: parent_session_id.to_owned(),
                    subagent_id,
                },
            );
            assert(harvests@.drop_last() =~= before);
        }
    } else if same_text(status, "failed") {
        pending_spawns.calls.remove(id);
    }
}

/// The update that a notification brings to a session of this harness, if it
/// does: one `session/update` of that very session.
pub open spec fn update_for(
    harness: HarnessId,
    method: Seq<char>,
    params: JsonView,
    session_id: Seq<char>,
) -> Option<JsonView> {
    if harness == HarnessId::Grok && method == "session/update"@ && string_of(
        params.get("sessionId"@),
    ) == Some(session_id) {
        params.get("update"@)
    } else {
        None
    }
}

/// The entry for every notification: those that bring this session an update
/// are scanned, all others change nothing.
pub fn scan_notification(
    harness: HarnessId,
    method: &str,
    params: &Json,
    session_id: &str,
    pending_spawns: &mut PendingSpawns,
    harvests: &mut Vec<Harvest>,
)
    ensures
        match update_for(harness, method@, params@, session_id@) {
            Some(update) => {
                &&& final(pending_spawns)@ == scanned(
                    old(pending_spawns)@,
                    update,
                    session_id@,
                ).0
                &&& harvests_after(
                    old(harvests)@,
                    scanned(old(pending_spawns)@, update, session_id@).1,
                    final(harvests)@,
                )
            },
            None => final(pending_spawns)@ == old(pending_spawns)@ && final(harvests)@ == old(
                harvests,
            )@,
        },
{
    if harness == HarnessId::Grok && same_text(method, "session/update") {
        if let Some(Json::String(session)) = params.get("sessionId") {
            if same_text(session.as_str(), session_id) {
                if let Some(update) = params.get("update") {
                    scan_update(update, session_id, pending_spawns, harvests);
                }
            }
        }
    }
}

/// An id is one component of a path and stays below the directory that it is
/// put in: it holds no separator and no dot.
pub proof fn lemma_id_is_one_path_component(id: Seq<char>)
    requires
        is_id(id),
    ensures
        !id.contains('/'),
        !id.contains('\\'),
        !id.contains('.'),
{
    assert forall|i: int| 0 <= i < id.len() implies id[i] != '/' && id[i] != '\\' && id[i]
        != '.' by {
        assert(is_id_char(id[i]));
    }
}

/// Only what has the shape of an id is harvested, and only for a call that was
/// opened as a spawn and is resolved by the same update.
pub proof fn lemma_harvest_is_of_an_open_spawn(
    pending: Set<Seq<char>>,
    update: JsonView,
    parent_session_id: Seq<char>,
)
    requires
        scanned(pending, update, parent_session_id).1 is Some,
    ensures
        ({
            let harvest = scanned(pending, update, parent_session_id).1->0;
            &&& is_id(harvest.subagent_id)
            &&& harvest.parent_session_id == parent_session_id
            &&& string_of(update.get("toolCallId"@)) == Some(harvest.parent_tool_use_id)
            &&& pending.contains(harvest.parent_tool_use_id) || has_spawn_marker(update)
            &&& !scanned(pending, update, parent_session_id).0.contains(
                harvest.parent_tool_use_id,
            )
        }),
{
}

/// The update of a call that neither spawns nor is open changes nothing.
pub proof fn lemma_other_calls_are_ignored(
    pending: Set<Seq<char>>,
    update: JsonView,
    parent_session_id: Seq<char>,
)
    requires
        !has_spawn_marker(update),
        string_of(update.get("toolCallId"@)) matches Some(id) ==> !pending.contains(id),
    ensures
        scanned(pending, update, parent_session_id) == (pending, None::<HarvestView>),
{
}

/// An update leaves every call but its own as it was.
pub proof fn lemma_calls_do_not_interfere(
    pending: Set<Seq<char>>,
    update: JsonView,
    parent_session_id: Seq<char>,
    other: Seq<char>,
)
    requires
        string_of(update.get("toolCallId"@)) != Some(other),
    ensures
        scanned(pending, update, parent_session_id).0.contains(other) == pending.contains(other),
{
}

/// A failed spawn never harvests, and is no longer open.
pub proof fn lemma_failed_spawn_never_harvests(
    pending: Set<Seq<char>>,
    update: JsonView,
    parent_session_id: Seq<char>,
    id: Seq<char>,
)
    requires
        string_of(update.get("toolCallId"@)) == Some(id),
        string_of(update.get("status"@)) == Some("failed"@),
    ensures
        scanned(pending, update, parent_session_id).1 is None,
        !scanned(pending, update, parent_session_id).0.contains(id),
{
    reveal_strlit("failed");
    reveal_strlit("completed");
    assert("failed"@.len() != "completed"@.len());
}

/// The open calls and the harvests asked for after `updates`.
pub open spec fn scanned_all(updates: Seq<JsonView>, parent_session_id: Seq<char>) -> (
    Set<Seq<char>>,
    Seq<HarvestView>,
)
    decreases updates.len(),
{
    if updates.len() == 0 {
        (Set::empty(), Seq::empty())
    } else {
        let before = scanned_all(updates.drop_last(), parent_session_id);
        let (pending, asked) = scanned(before.0, updates.last(), parent_session_id);
        (
            pending,
            match asked {
                Some(harvest) => before.1.push(harvest),
                None => before.1,
            },
        )
    }
}

/// How often `updates` mark the call `id` as a spawn.
pub open spec fn marks(updates: Seq<JsonView>, id: Seq<char>) -> nat
    decreases updates.len(),
{
    if updates.len() == 0 {
        0
    } else {
        marks(updates.drop_last(), id) + if has_spawn_marker(updates.last()) && string_of(
            updates.last().get("toolCallId"@),
        ) == Some(id) {
            1nat
        } else {
            0
        }
    }
}

/// How many of `harvests` are of the call `id`.
pub open spec fn harvests_of(harvests: Seq<HarvestView>, id: Seq<char>) -> nat
    decreases harvests.len(),
{
    if harvests.len() == 0 {
        0
    } else {
        harvests_of(harvests.drop_last(), id) + if harvests.last().parent_tool_use_id == id {
            1nat
        } else {
            0
        }
    }
}

/// Over a whole session a call is harvested at most as often as it was marked
/// as a spawn, and once less while it is open: a call that was never marked is
/// never harvested, and an update that repeats a completion without the marker
/// harvests nothing again.
pub proof fn lemma_every_harvest_has_its_spawn(
    updates: Seq<JsonView>,
    parent_session_id: Seq<char>,
    id: Seq<char>,
)
    ensures
        ({
            let (pending, harvests) = scanned_all(updates, parent_session_id);
            harvests_of(harvests, id) + if pending.contains(id) {
                1nat
            } else {
                0
            } <= marks(updates, id)
        }),
    decreases updates.len(),
{
    if updates.len() > 0 {
        let before = scanned_all(updates.drop_last(), parent_session_id);
        lemma_every_harvest_has_its_spawn(updates.drop_last(), parent_session_id, id);
        let (pending, asked) = scanned(before.0, updates.last(), parent_session_id);
        if let Some(harvest) = asked {
            assert(before.1.push(harvest).drop_last() =~= before.1);
        }
    }
}

/// An update is marked exactly where its `_meta` holds an `x.ai/tool` whose
/// `name` is `spawn_subagent`.
pub proof fn lemma_marker_is_the_vendor_name(
    update: JsonView,
    meta: JsonView,
    tool: JsonView,
)
    ensures
        update.get("_meta"@) is None ==> !has_spawn_marker(update),
        update.get("_meta"@) == Some(meta) && meta.get("x.ai/tool"@) is None ==> !has_spawn_marker(
            update,
        ),
        update.get("_meta"@) == Some(meta) && meta.get("x.ai/tool"@) == Some(tool) ==> (
        has_spawn_marker(update) <==> tool.get("name"@) == Some(
            JsonView::String("spawn_subagent"@),
        )),
{
}

/// A first-class `subagent_id` wins over what the text says. It is taken exactly
/// where it is made of one to sixty-four ASCII letters, ASCII digits and
/// hyphens.
pub proof fn lemma_first_class_id_wins(update: JsonView, raw: JsonView, id: Seq<char>)
    requires
        update.get("rawOutput"@) == Some(raw),
        raw.get("subagent_id"@) == Some(JsonView::String(id)),
    ensures
        subagent_id(update) is None || subagent_id(update) == Some(id),
        subagent_id(update) is Some <==> 1 <= id.len() <= 64 && forall|i: int|
            0 <= i < id.len() ==> {
                let u = #[trigger] id[i] as int;
                (0x30 <= u <= 0x39) || (0x41 <= u <= 0x5a) || (0x61 <= u <= 0x7a) || u == 0x2d
            },
{
    lemma_shape_of_an_id(id);
}

proof fn lemma_shape_of_an_id(id: Seq<char>)
    ensures
        is_id(id) <==> 1 <= id.len() <= 64 && forall|i: int|
            0 <= i < id.len() ==> {
                let u = #[trigger] id[i] as int;
                (0x30 <= u <= 0x39) || (0x41 <= u <= 0x5a) || (0x61 <= u <= 0x7a) || u == 0x2d
            },
{
    if is_id(id) {
        assert forall|i: int| 0 <= i < id.len() implies ({
            let u = #[trigger] id[i] as int;
            (0x30 <= u <= 0x39) || (0x41 <= u <= 0x5a) || (0x61 <= u <= 0x7a) || u == 0x2d
        }) by {
            assert(is_id_char(id[i]));
        }
    } else if 1 <= id.len() <= 64 {
        assert(exists|i: int| 0 <= i < id.len() && !is_id_char(#[trigger] id[i]));
        let i = choose|i: int| 0 <= i < id.len() && !is_id_char(#[trigger] id[i]);
        assert(!is_id_char(id[i]));
    }
}

/// Without one the text names the id: on its first line that begins with
/// `subagent_id:`, trimmed, and taken exactly where it is made of one to
/// sixty-four ASCII letters, ASCII digits and hyphens.
pub proof fn lemma_text_names_the_id(
    update: JsonView,
    raw: JsonView,
    text: Seq<char>,
    at: int,
)
    requires
        update.get("rawOutput"@) == Some(raw),
        !(raw.get("subagent_id"@) matches Some(JsonView::String(_))),
        raw.get("text"@) == Some(JsonView::String(text)),
        0 <= at < lines(text).len(),
        "subagent_id:"@.is_prefix_of(lines(text)[at]),
        forall|j: int| 0 <= j < at ==> !"subagent_id:"@.is_prefix_of(#[trigger] lines(text)[j]),
    ensures
        ({
            let id = trimmed(lines(text)[at].skip(12));
            &&& subagent_id(update) is None || subagent_id(update) == Some(id)
            &&& subagent_id(update) is Some <==> 1 <= id.len() <= 64 && forall|i: int|
                0 <= i < id.len() ==> {
                    let u = #[trigger] id[i] as int;
                    (0x30 <= u <= 0x39) || (0x41 <= u <= 0x5a) || (0x61 <= u <= 0x7a) || u == 0x2d
                }
        }),
{
    reveal_strlit("subagent_id:");
    lemma_first_line_with_the_prefix_counts(lines(text), "subagent_id:"@, at);
    lemma_shape_of_an_id(trimmed(lines(text)[at].skip(12)));
}

/// Nothing else names a subagent.
pub proof fn lemma_nothing_else_names_a_subagent(update: JsonView)
    requires
        update.get("rawOutput"@) matches Some(raw) ==> {
            &&& !(raw.get("subagent_id"@) matches Some(JsonView::String(_)))
            &&& raw.get("text"@) matches Some(JsonView::String(text)) ==> forall|j: int|
                0 <= j < lines(text).len() ==> !"subagent_id:"@.is_prefix_of(
                    #[trigger] lines(text)[j],
                )
        },
    ensures
        subagent_id(update) is None,
{
    if let Some(raw) = update.get("rawOutput"@) {
        if let Some(JsonView::String(text)) = raw.get("text"@) {
            lemma_no_line_no_field(lines(text), "subagent_id:"@);
        }
    }
}

/// A completed spawn is resolved and harvested: where the call is open, or the
/// update itself carries the marker, the call is open no more, every other one
/// is as before, and the subagent that the update names, if it names one, is
/// to be harvested under that call and session.
pub proof fn lemma_completed_spawn_is_harvested(
    pending: Set<Seq<char>>,
    update: JsonView,
    session: Seq<char>,
    id: Seq<char>,
)
    requires
        update.get("toolCallId"@) == Some(JsonView::String(id)),
        update.get("status"@) == Some(JsonView::String("completed"@)),
        pending.contains(id) || has_spawn_marker(update),
    ensures
        scanned(pending, update, session).0 == pending.remove(id),
        subagent_id(update) matches Some(subagent) ==> scanned(pending, update, session).1 == Some(
            HarvestView {
                parent_tool_use_id: id,
                parent_session_id: session,
                subagent_id: subagent,
            },
        ),
        subagent_id(update) is None ==> scanned(pending, update, session).1 is None,
{
    assert(pending.insert(id).remove(id) =~= pending.remove(id));
}

/// A failed spawn is resolved without a harvest, and every other call is as
/// before.
pub proof fn lemma_failed_spawn_is_resolved(
    pending: Set<Seq<char>>,
    update: JsonView,
    session: Seq<char>,
    id: Seq<char>,
)
    requires
        update.get("toolCallId"@) == Some(JsonView::String(id)),
        update.get("status"@) == Some(JsonView::String("failed"@)),
    ensures
        scanned(pending, update, session).0 == pending.remove(id),
        scanned(pending, update, session).1 is None,
{
    lemma_failed_spawn_never_harvests(pending, update, session, id);
    assert(scanned(pending, update, session).0 =~= pending.remove(id));
}

/// Any other update of a call harvests nothing and resolves nothing: the
/// marker opens the call, and without it nothing changes.
pub proof fn lemma_call_stays_open_until_it_ends(
    pending: Set<Seq<char>>,
    update: JsonView,
    session: Seq<char>,
    id: Seq<char>,
)
    requires
        update.get("toolCallId"@) == Some(JsonView::String(id)),
        update.get("status"@) != Some(JsonView::String("completed"@)),
        update.get("status"@) != Some(JsonView::String("failed"@)),
    ensures
        scanned(pending, update, session).1 is None,
        has_spawn_marker(update) ==> scanned(pending, update, session).0 == pending.insert(id),
        !has_spawn_marker(update) ==> scanned(pending, update, session).0 == pending,
{
}

/// An update that names no call changes nothing.
pub proof fn lemma_update_without_a_call_changes_nothing(
    pending: Set<Seq<char>>,
    update: JsonView,
    session: Seq<char>,
)
    requires
        !(update.get("toolCallId"@) matches Some(JsonView::String(_))),
    ensures
        scanned(pending, update, session) == (pending, None::<HarvestView>),
{
}

/// A notification brings an update exactly where it is a `session/update` of
/// this very session on this harness, and then the update that it holds.
pub proof fn lemma_notification_brings_its_own_session_an_update(
    harness: HarnessId,
    method: Seq<char>,
    params: JsonView,
    session: Seq<char>,
)
    ensures
        ({
            let ours = harness == HarnessId::Grok && method == "session/update"@ && params.get(
                "sessionId"@,
            ) == Some(JsonView::String(session));
            &&& ours ==> update_for(harness, method, params, session) == params.get("update"@)
            &&& !ours ==> update_for(harness, method, params, session) is None
        }),
{
}

/// A harvest that is asked for comes behind those that were, which stay as
/// they are; where none is asked for nothing is added.
pub proof fn lemma_harvests_are_added_at_the_end(
    before: Seq<Harvest>,
    asked: Option<HarvestView>,
    after: Seq<Harvest>,
)
    requires
        harvests_after(before, asked, after),
    ensures
        after.len() == before.len() + (if asked is Some {
            1int
        } else {
            0
        }),
        forall|i: int| 0 <= i < before.len() ==> #[trigger] after[i] == before[i],
        asked matches Some(view) ==> {
            &&& after[before.len() as int].parent_tool_use_id@ == view.parent_tool_use_id
            &&& after[before.len() as int].parent_session_id@ == view.parent_session_id
            &&& after[before.len() as int].subagent_id@ == view.subagent_id
        },
{
    if asked is Some {
        assert forall|i: int| 0 <= i < before.len() implies #[trigger] after[i] == before[i] by {
            assert(after.drop_last()[i] == before[i]);
        }
    }
}

} // verus!
