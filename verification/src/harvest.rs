//! The harvest of one subagent, step by step.
//!
//! A harvest looks for the directory that holds the parent session and, in it,
//! for the subagent's own directories, follows the subagent's transcript there,
//! and closes with one `Done` when the store
//! says that the subagent is finished. Every step here takes what the last
//! action brought and says what to do next; looking, reading, sending and
//! waiting are the caller's.

use vstd::prelude::*;

use crate::event::{
    all_capped, all_capped_inside, all_tagged, capped, tag, tagged, AgentEvent, EventView,
};
use crate::lifecycle::{bytes_of, file_view, terminal_state, terminal_view, Ending};
use crate::spawn::{Harvest, HarvestView};
use crate::tail::{
    lemma_events_add_up, lemma_reads_add_up, lemma_transcript_never_ends_a_run, partial_line,
    transcript_views, Tail, NEWLINE,
};

verus! {

/// How long to wait between two looks at the store, in milliseconds. The store
/// is written a message at a time, so looking more often buys nothing.
pub const POLL_MS: u64 = 500;

/// How long to look for the subagent's directories, in milliseconds. Past this
/// the store is laid out otherwise, and the harvest is given up.
pub const DISCOVER_TIMEOUT_MS: u64 = 60_000;

/// What an action brought.
#[derive(Debug, PartialEq)]
pub enum Input {
    /// Whether there is a directory that holds the parent session, and all of
    /// the subagent's directories in it; whether nobody listens any more; how
    /// long the harvest has been looking, in milliseconds.
    Searched { found: bool, closed: bool, elapsed_ms: u64 },
    /// The transcript past the offset that was asked for; `None` where it
    /// could not be read.
    Fresh(Option<Vec<u8>>),
    /// Whether every event was sent.
    Sent(bool),
    /// The bytes of the subagent's `meta.json`, where it could be read, and of
    /// its `output.json`, where there is one, be it only to find that nothing
    /// can be read of it; whether nobody listens any more.
    Status { meta: Option<Vec<u8>>, output: Option<Vec<u8>>, closed: bool },
}

/// What an [`Input`] says.
pub enum InputView {
    Searched { found: bool, closed: bool, elapsed_ms: u64 },
    Fresh(Option<Seq<u8>>),
    Sent(bool),
    Status { meta: Option<Seq<u8>>, output: Option<Seq<u8>>, closed: bool },
}

impl Input {
    pub open spec fn view(&self) -> InputView {
        match self {
            Input::Searched { found, closed, elapsed_ms } => InputView::Searched {
                found: *found,
                closed: *closed,
                elapsed_ms: *elapsed_ms,
            },
            Input::Fresh(bytes) => InputView::Fresh(bytes_of(*bytes)),
            Input::Sent(all) => InputView::Sent(*all),
            Input::Status { meta, output, closed } => InputView::Status {
                meta: bytes_of(*meta),
                output: bytes_of(*output),
                closed: *closed,
            },
        }
    }
}

/// What to do next.
#[derive(Debug, PartialEq)]
pub enum Action {
    /// Wait, then look for the directory that holds the parent session and for
    /// the subagent's directories in it.
    Find { after_ms: u64 },
    /// Wait, then read the transcript from `offset` to its end.
    Read { after_ms: u64, offset: u64 },
    /// Send these events in order, up to the first that nobody takes.
    Send(Vec<AgentEvent>),
    /// Read the subagent's `meta.json` and `output.json`.
    Check,
    /// The harvest is over.
    Stop,
}

/// What an [`Action`] asks for, with no output cut.
pub enum ActionView {
    Find { after_ms: u64 },
    Read { after_ms: u64, offset: int },
    Send(Seq<EventView>),
    Check,
    Stop,
}

/// `action` is `whole` with each event's output cut by `cap`.
pub open spec fn capped_action<F: Fn(String) -> String>(
    cap: &F,
    whole: ActionView,
    action: Action,
) -> bool {
    match whole {
        ActionView::Find { after_ms } => action == Action::Find { after_ms },
        ActionView::Read { after_ms, offset } => {
            &&& action matches Action::Read { after_ms: a, offset: o }
            &&& a == after_ms
            &&& o == offset
        },
        ActionView::Send(wholes) => action matches Action::Send(events) && all_capped_inside(
            cap,
            wholes,
            events@,
        ),
        ActionView::Check => action == Action::Check,
        ActionView::Stop => action == Action::Stop,
    }
}

/// What a harvest waits for.
#[derive(Debug, PartialEq)]
pub enum Phase {
    Searching,
    Reading,
    Sending,
    Checking,
    /// The subagent is finished; one more read keeps its last lines ahead of
    /// the `Done`.
    LastReading(Ending),
    Closing,
    Finished,
}

/// What a [`Phase`] says.
pub enum PhaseView {
    Searching,
    Reading,
    Sending,
    Checking,
    LastReading(EventView),
    Closing,
    Finished,
}

impl Phase {
    pub open spec fn view(&self) -> PhaseView {
        match self {
            Phase::Searching => PhaseView::Searching,
            Phase::Reading => PhaseView::Reading,
            Phase::Sending => PhaseView::Sending,
            Phase::Checking => PhaseView::Checking,
            Phase::LastReading(ending) => PhaseView::LastReading(ending@),
            Phase::Closing => PhaseView::Closing,
            Phase::Finished => PhaseView::Finished,
        }
    }
}

/// A harvest under way.
#[derive(Debug, PartialEq)]
pub struct Harvester {
    pub harvest: Harvest,
    pub phase: Phase,
    pub tail: Tail,
}

/// Where a harvest stands.
pub struct HarvesterView {
    pub harvest: HarvestView,
    pub phase: PhaseView,
    /// How many bytes of the transcript have been read.
    pub offset: int,
    /// The partial line at the end of them.
    pub carry: Seq<u8>,
}

impl HarvesterView {
    /// The tool call that the events go under.
    pub open spec fn parent(self) -> Seq<char> {
        self.harvest.parent_tool_use_id
    }

    /// The same harvest in another phase.
    pub open spec fn enter(self, phase: PhaseView) -> HarvesterView {
        HarvesterView { phase, ..self }
    }

    /// The same harvest with more of the transcript read.
    pub open spec fn take_in(self, fresh: Option<Seq<u8>>) -> HarvesterView {
        match fresh {
            Some(bytes) => HarvesterView {
                offset: self.offset + bytes.len(),
                carry: partial_line(self.carry + bytes),
                ..self
            },
            None => self,
        }
    }

    /// The tagged events that more of the transcript brings.
    pub open spec fn brought(self, fresh: Option<Seq<u8>>) -> Seq<EventView> {
        match fresh {
            Some(bytes) => all_tagged(self.parent(), transcript_views(self.carry + bytes)),
            None => Seq::empty(),
        }
    }
}

/// One step of a harvest: where it stands next, and what it asks for. What
/// answers no question that was asked ends it.
pub open spec fn stepped(h: HarvesterView, input: InputView) -> (HarvesterView, ActionView) {
    match (h.phase, input) {
        (PhaseView::Searching, InputView::Searched { found, closed, elapsed_ms }) => {
            if found {
                (
                    h.enter(PhaseView::Reading),
                    ActionView::Read { after_ms: 0, offset: h.offset },
                )
            } else if closed || elapsed_ms >= DISCOVER_TIMEOUT_MS {
                (h.enter(PhaseView::Finished), ActionView::Stop)
            } else {
                (h, ActionView::Find { after_ms: POLL_MS })
            }
        },
        (PhaseView::Reading, InputView::Fresh(fresh)) => (
            h.take_in(fresh).enter(PhaseView::Sending),
            ActionView::Send(h.brought(fresh)),
        ),
        (PhaseView::Sending, InputView::Sent(true)) => (
            h.enter(PhaseView::Checking),
            ActionView::Check,
        ),
        (PhaseView::Checking, InputView::Status { meta, output, closed }) => match terminal_view(
            file_view(meta),
            output is Some,
            file_view(output),
        ) {
            Some(done) => (
                h.enter(PhaseView::LastReading(done)),
                ActionView::Read { after_ms: 0, offset: h.offset },
            ),
            None => if closed {
                (h.enter(PhaseView::Finished), ActionView::Stop)
            } else {
                (
                    h.enter(PhaseView::Reading),
                    ActionView::Read { after_ms: POLL_MS, offset: h.offset },
                )
            },
        },
        (PhaseView::LastReading(done), InputView::Fresh(fresh)) => (
            h.take_in(fresh).enter(PhaseView::Closing),
            ActionView::Send(h.brought(fresh).push(tagged(h.parent(), done))),
        ),
        _ => (h.enter(PhaseView::Finished), ActionView::Stop),
    }
}

/// Puts each event under the tool call `parent`.
fn tag_all<F: Fn(String) -> String>(
    parent: &str,
    events: Vec<AgentEvent>,
    wholes: Ghost<Seq<EventView>>,
    cap: &F,
) -> (r: Vec<AgentEvent>)
    requires
        all_capped(cap, wholes@, events@),
    ensures
        all_capped_inside(cap, all_tagged(parent@, wholes@), r@),
{
    let mut out: Vec<AgentEvent> = Vec::new();
    let ghost all = events@;
    for event in it: events
        invariant
            it.seq() == all,
            all_capped(cap, wholes@, all),
            all_capped_inside(cap, all_tagged(parent@, wholes@.take(it.index() as int)), out@),
    {
        let ghost i = it.index() as int;
        assert(capped(cap, wholes@[i], all[i]));
        assert(all_tagged(parent@, wholes@.take(i + 1)) =~= all_tagged(
            parent@,
            wholes@.take(i),
        ).push(tagged(parent@, wholes@[i])));
        out.push(tag(parent, event));
    }
    assert(wholes@.take(wholes@.len() as int) =~= wholes@);
    out
}

impl Harvester {
    pub open spec fn view(&self) -> HarvesterView {
        HarvesterView {
            harvest: self.harvest@,
            phase: self.phase@,
            offset: self.tail.offset as int,
            carry: self.tail.carry@,
        }
    }

    /// A harvest that has read nothing. Its first action is to look for the
    /// directories at once.
    pub fn new(harvest: Harvest) -> (r: Harvester)
        ensures
            r.harvest == harvest,
            r@ == started(harvest@),
    {
        Harvester { harvest, phase: Phase::Searching, tail: Tail::new() }
    }

    /// Takes in what was read and gives the events of it, tagged.
    fn drain<F: Fn(String) -> String>(&mut self, fresh: Option<Vec<u8>>, cap: &F) -> (r: Vec<
        AgentEvent,
    >)
        requires
            fresh matches Some(bytes) ==> old(self).tail.offset + bytes@.len() <= u64::MAX,
            forall|s: String| call_requires(*cap, (s,)),
        ensures
            final(self)@ == old(self)@.take_in(bytes_of(fresh)),
            final(self).harvest == old(self).harvest,
            all_capped_inside(cap, old(self)@.brought(bytes_of(fresh)), r@),
    {
        match fresh {
            Some(bytes) => {
                let ghost wholes = transcript_views(self.tail.carry@ + bytes@);
                let events: Vec<AgentEvent> = self.tail.drain_lines(bytes.as_slice(), cap);
                tag_all(self.harvest.parent_tool_use_id.as_str(), events, Ghost(wholes), cap)
            },
            None => Vec::new(),
        }
    }

    /// Takes what the last action brought and says what to do next. The output
    /// of a tool and the result of the run are cut by `cap`.
    pub fn step<F: Fn(String) -> String>(&mut self, input: Input, cap: &F) -> (r: Action)
        requires
            input matches Input::Fresh(Some(bytes)) ==> old(self).tail.offset + bytes@.len()
                <= u64::MAX,
            forall|s: String| call_requires(*cap, (s,)),
        ensures
            final(self)@ == stepped(old(self)@, input@).0,
            final(self).harvest == old(self).harvest,
            capped_action(cap, stepped(old(self)@, input@).1, r),
    {
        let mut phase: Phase = Phase::Finished;
        std::mem::swap(&mut phase, &mut self.phase);
        match (phase, input) {
            (Phase::Searching, Input::Searched { found, closed, elapsed_ms }) => {
                if found {
                    self.phase = Phase::Reading;
                    Action::Read { after_ms: 0, offset: self.tail.offset }
                } else if closed || elapsed_ms >= DISCOVER_TIMEOUT_MS {
                    Action::Stop
                } else {
                    self.phase = Phase::Searching;
                    Action::Find { after_ms: POLL_MS }
                }
            },
            (Phase::Reading, Input::Fresh(fresh)) => {
                let events: Vec<AgentEvent> = self.drain(fresh, cap);
                self.phase = Phase::Sending;
                Action::Send(events)
            },
            (Phase::Sending, Input::Sent(true)) => {
                self.phase = Phase::Checking;
                Action::Check
            },
            (Phase::Checking, Input::Status { meta, output, closed }) => {
                match terminal_state(&meta, &output) {
                    Some(ending) => {
                        self.phase = Phase::LastReading(ending);
                        Action::Read { after_ms: 0, offset: self.tail.offset }
                    },
                    None => if closed {
                        Action::Stop
                    } else {
                        self.phase = Phase::Reading;
                        Action::Read { after_ms: POLL_MS, offset: self.tail.offset }
                    },
                }
            },
            (Phase::LastReading(ending), Input::Fresh(fresh)) => {
                let mut events: Vec<AgentEvent> = self.drain(fresh, cap);
                let done: AgentEvent = ending.event(cap);
                events.push(tag(self.harvest.parent_tool_use_id.as_str(), done));
                self.phase = Phase::Closing;
                Action::Send(events)
            },
            _ => Action::Stop,
        }
    }
}

/// The harvest `harvest`, of which nothing has been read.
pub open spec fn started(harvest: HarvestView) -> HarvesterView {
    HarvesterView { harvest, phase: PhaseView::Searching, offset: 0, carry: Seq::empty() }
}

/// Where a harvest stands after `inputs`.
pub open spec fn run(h: HarvesterView, inputs: Seq<InputView>) -> HarvesterView
    decreases inputs.len(),
{
    if inputs.len() == 0 {
        h
    } else {
        stepped(run(h, inputs.drop_last()), inputs.last()).0
    }
}

/// The action that the last of `inputs` leads to.
pub open spec fn last_action(h: HarvesterView, inputs: Seq<InputView>) -> ActionView
    recommends
        inputs.len() > 0,
{
    stepped(run(h, inputs.drop_last()), inputs.last()).1
}

/// All events that a harvest gives out to be sent, in order.
pub open spec fn offered(h: HarvesterView, inputs: Seq<InputView>) -> Seq<EventView>
    decreases inputs.len(),
{
    if inputs.len() == 0 {
        Seq::empty()
    } else {
        offered(h, inputs.drop_last()) + (match last_action(h, inputs) {
            ActionView::Send(events) => events,
            _ => Seq::empty(),
        })
    }
}

/// The harvest has asked for the transcript.
pub open spec fn asked_to_read(h: HarvesterView) -> bool {
    h.phase is Reading || h.phase is LastReading
}

/// All bytes of the transcript that a harvest has been given, in order.
pub open spec fn taken(h: HarvesterView, inputs: Seq<InputView>) -> Seq<u8>
    decreases inputs.len(),
{
    if inputs.len() == 0 {
        Seq::empty()
    } else {
        taken(h, inputs.drop_last()) + (match inputs.last() {
            InputView::Fresh(Some(bytes)) => if asked_to_read(run(h, inputs.drop_last())) {
                bytes
            } else {
                Seq::empty()
            },
            _ => Seq::empty(),
        })
    }
}

/// The event that closed a harvest, where one has.
pub open spec fn closed_with(h: HarvesterView, inputs: Seq<InputView>) -> Option<EventView>
    decreases inputs.len(),
{
    if inputs.len() == 0 {
        None
    } else {
        match (run(h, inputs.drop_last()).phase, inputs.last()) {
            (PhaseView::LastReading(done), InputView::Fresh(_)) => Some(done),
            _ => closed_with(h, inputs.drop_last()),
        }
    }
}

/// What a harvest gives out is the transcript: the events of the complete
/// lines of all that was read, under the parent's tool call and in order,
/// however the reads were cut, and behind them the event that closed it, where
/// one has. What it has counted and carries over is what was read.
pub proof fn lemma_harvest_gives_the_transcript(harvest: HarvestView, inputs: Seq<InputView>)
    ensures
        ({
            let h = started(harvest);
            let parent = harvest.parent_tool_use_id;
            let read = taken(h, inputs);
            let end = run(h, inputs);
            &&& offered(h, inputs) == all_tagged(parent, transcript_views(read)) + (
            match closed_with(h, inputs) {
                Some(done) => seq![tagged(parent, done)],
                None => Seq::empty(),
            })
            &&& end.harvest == harvest
            &&& end.offset == read.len()
            &&& end.carry == partial_line(read)
            &&& closed_with(h, inputs) is Some ==> end.phase is Closing || end.phase is Finished
            &&& closed_with(h, inputs) matches Some(done) ==> done is Done
            &&& end.phase matches PhaseView::LastReading(done) ==> done is Done
        }),
    decreases inputs.len(),
{
    let h = started(harvest);
    let parent = harvest.parent_tool_use_id;
    let empty = Seq::<u8>::empty();
    if inputs.len() == 0 {
        empty.index_of_first_ensures(NEWLINE);
        assert(transcript_views(empty) == Seq::<EventView>::empty());
        assert(offered(h, inputs) =~= all_tagged(parent, transcript_views(empty)) + Seq::empty());
    } else {
        let before = inputs.drop_last();
        lemma_harvest_gives_the_transcript(harvest, before);
        let mid = run(h, before);
        let read = taken(h, before);
        if asked_to_read(mid) && inputs.last() is Fresh {
            let fresh = inputs.last()->Fresh_0;
            match fresh {
                Some(bytes) => {
                    lemma_events_add_up(read, bytes);
                    lemma_reads_add_up(read, bytes);
                    assert(all_tagged(parent, transcript_views(read + bytes)) =~= all_tagged(
                        parent,
                        transcript_views(read),
                    ) + mid.brought(fresh));
                },
                None => {
                    assert(taken(h, inputs) =~= read);
                },
            }
        } else {
            assert(taken(h, inputs) =~= read);
        }
        assert(offered(h, inputs) =~= all_tagged(parent, transcript_views(taken(h, inputs))) + (
        match closed_with(h, inputs) {
            Some(done) => seq![tagged(parent, done)],
            None => Seq::empty(),
        }));
    }
}

/// Every event that a harvest gives out is under the parent's tool call: none
/// of a subagent's traffic is the parent's own.
pub proof fn lemma_harvest_tags_everything(harvest: HarvestView, inputs: Seq<InputView>, i: int)
    requires
        0 <= i < offered(started(harvest), inputs).len(),
    ensures
        offered(started(harvest), inputs)[i] matches EventView::Subagent { parent_tool_use_id, .. }
            && parent_tool_use_id == harvest.parent_tool_use_id,
{
    lemma_harvest_gives_the_transcript(harvest, inputs);
}

/// A harvest gives out at most one `Done`, and nothing after it.
pub proof fn lemma_done_comes_once_and_last(harvest: HarvestView, inputs: Seq<InputView>, i: int)
    requires
        0 <= i < offered(started(harvest), inputs).len(),
        *(offered(started(harvest), inputs)[i]->event) is Done,
    ensures
        i == offered(started(harvest), inputs).len() - 1,
        closed_with(started(harvest), inputs) == Some(
            *(offered(started(harvest), inputs)[i]->event),
        ),
{
    lemma_harvest_gives_the_transcript(harvest, inputs);
    let read = taken(started(harvest), inputs);
    if i < transcript_views(read).len() {
        lemma_transcript_never_ends_a_run(read, i);
    }
}

/// A harvest that is over asks for nothing more.
pub proof fn lemma_finished_stays_finished(h: HarvesterView, input: InputView)
    requires
        h.phase is Finished,
    ensures
        stepped(h, input) == (h, ActionView::Stop),
{
}

/// An event that nobody takes ends the harvest.
pub proof fn lemma_unsent_event_ends_the_harvest(h: HarvesterView)
    ensures
        stepped(h, InputView::Sent(false)).0.phase is Finished,
        stepped(h, InputView::Sent(false)).1 is Stop,
{
}

/// While a harvest searches it has read nothing and given out nothing.
proof fn lemma_nothing_before_the_search_ends(harvest: HarvestView, inputs: Seq<InputView>)
    requires
        run(started(harvest), inputs).phase is Searching,
    ensures
        offered(started(harvest), inputs) == Seq::<EventView>::empty(),
    decreases inputs.len(),
{
    if inputs.len() > 0 {
        lemma_nothing_before_the_search_ends(harvest, inputs.drop_last());
    }
}

/// A harvest whose subagent's directories are not there in time gives up
/// quietly: it has given out nothing, and stops.
pub proof fn lemma_search_is_bounded(
    harvest: HarvestView,
    inputs: Seq<InputView>,
    elapsed_ms: u64,
    closed: bool,
)
    requires
        run(started(harvest), inputs).phase is Searching,
        elapsed_ms >= DISCOVER_TIMEOUT_MS,
    ensures
        ({
            let missed = inputs.push(InputView::Searched { found: false, closed, elapsed_ms });
            &&& run(started(harvest), missed).phase is Finished
            &&& last_action(started(harvest), missed) is Stop
            &&& offered(started(harvest), missed) == Seq::<EventView>::empty()
        }),
{
    let missed = inputs.push(InputView::Searched { found: false, closed, elapsed_ms });
    assert(missed.drop_last() =~= inputs);
    lemma_nothing_before_the_search_ends(harvest, inputs);
}

/// A subagent that its files call finished is closed: the next read of its
/// transcript, even one that fails, gives out what is new and then the `Done`.
pub proof fn lemma_finished_subagent_is_closed(
    h: HarvesterView,
    meta: Option<Seq<u8>>,
    output: Option<Seq<u8>>,
    closed: bool,
    fresh: Option<Seq<u8>>,
)
    requires
        h.phase is Checking,
        terminal_view(file_view(meta), output is Some, file_view(output)) is Some,
    ensures
        ({
            let last = stepped(h, InputView::Status { meta, output, closed });
            &&& last.1 == ActionView::Read { after_ms: 0, offset: h.offset }
            &&& stepped(last.0, InputView::Fresh(fresh)).1 == ActionView::Send(
                h.brought(fresh).push(
                    tagged(
                        h.parent(),
                        terminal_view(file_view(meta), output is Some, file_view(output))->0,
                    ),
                ),
            )
        }),
{
}

/// Every read that a harvest asks for begins where its reads so far have
/// ended: no byte is read twice, and none is passed over.
pub proof fn lemma_reads_go_on_where_they_ended(harvest: HarvestView, inputs: Seq<InputView>)
    requires
        inputs.len() > 0,
        last_action(started(harvest), inputs) is Read,
    ensures
        last_action(started(harvest), inputs)->offset == taken(started(harvest), inputs).len(),
{
    lemma_harvest_gives_the_transcript(harvest, inputs);
    lemma_harvest_gives_the_transcript(harvest, inputs.drop_last());
}

/// A harvest takes in what is read exactly where it has asked for it.
pub proof fn lemma_only_what_was_asked_for_is_taken(
    harvest: HarvestView,
    inputs: Seq<InputView>,
    bytes: Seq<u8>,
)
    requires
        inputs.len() > 0,
    ensures
        ({
            let h = started(harvest);
            let more = inputs.push(InputView::Fresh(Some(bytes)));
            &&& last_action(h, inputs) is Read ==> taken(h, more) == taken(h, inputs) + bytes
            &&& !(last_action(h, inputs) is Read) ==> taken(h, more) == taken(h, inputs)
            &&& taken(h, inputs.push(InputView::Fresh(None))) == taken(h, inputs)
        }),
{
    let h = started(harvest);
    let more = inputs.push(InputView::Fresh(Some(bytes)));
    assert(more.drop_last() =~= inputs);
    assert(inputs.push(InputView::Fresh(None)).drop_last() =~= inputs);
    assert(taken(h, inputs) + Seq::<u8>::empty() =~= taken(h, inputs));
}

/// A search that finds its directories leads to a read from the beginning at
/// once. One that does not is repeated every half second, until a minute has
/// gone by or nobody listens any more, and is then given up.
pub proof fn lemma_search_leads_to_a_read(
    harvest: HarvestView,
    inputs: Seq<InputView>,
    found: bool,
    closed: bool,
    elapsed_ms: u64,
)
    requires
        inputs.len() == 0 || last_action(started(harvest), inputs) is Find,
    ensures
        ({
            let next = last_action(
                started(harvest),
                inputs.push(InputView::Searched { found, closed, elapsed_ms }),
            );
            &&& found ==> next == (ActionView::Read { after_ms: 0, offset: 0 })
            &&& !found && (closed || elapsed_ms >= 60_000) ==> next is Stop
            &&& !found && !closed && elapsed_ms < 60_000 ==> next == (ActionView::Find {
                after_ms: 500,
            })
        }),
{
    let h = started(harvest);
    let next = inputs.push(InputView::Searched { found, closed, elapsed_ms });
    assert(next.drop_last() =~= inputs);
    lemma_searching_has_read_nothing(harvest, inputs);
}

/// While a harvest searches it is as it was started.
proof fn lemma_searching_has_read_nothing(harvest: HarvestView, inputs: Seq<InputView>)
    ensures
        run(started(harvest), inputs).phase is Searching ==> run(started(harvest), inputs)
            == started(harvest),
    decreases inputs.len(),
{
    if inputs.len() > 0 {
        lemma_searching_has_read_nothing(harvest, inputs.drop_last());
    }
}

/// What is read is sent at once: the events of the lines that it completes,
/// under the parent's tool call and in order. Behind them comes the event that
/// closes the subagent exactly where the read was asked for because the
/// subagent is finished.
pub proof fn lemma_what_is_read_is_sent(
    harvest: HarvestView,
    inputs: Seq<InputView>,
    fresh: Option<Seq<u8>>,
)
    requires
        inputs.len() > 0,
        last_action(started(harvest), inputs) is Read,
    ensures
        ({
            let h = started(harvest);
            let parent = harvest.parent_tool_use_id;
            let new = match fresh {
                Some(bytes) => all_tagged(
                    parent,
                    transcript_views(partial_line(taken(h, inputs)) + bytes),
                ),
                None => Seq::empty(),
            };
            let done = match inputs.last() {
                InputView::Status { meta, output, .. } => terminal_view(
                    file_view(meta),
                    output is Some,
                    file_view(output),
                ),
                _ => None,
            };
            last_action(h, inputs.push(InputView::Fresh(fresh))) == ActionView::Send(
                match done {
                    Some(end) => new.push(
                        EventView::Subagent { parent_tool_use_id: parent, event: Box::new(end) },
                    ),
                    None => new,
                },
            )
        }),
{
    let more = inputs.push(InputView::Fresh(fresh));
    assert(more.drop_last() =~= inputs);
    lemma_harvest_gives_the_transcript(harvest, inputs);
}

/// Once its events are sent a harvest asks how the subagent is, but for the
/// end of it, which is the end of the harvest too. Events that nobody takes
/// are the end in any case.
pub proof fn lemma_sending_leads_to_a_check(harvest: HarvestView, inputs: Seq<InputView>)
    requires
        inputs.len() > 0,
        last_action(started(harvest), inputs) is Send,
    ensures
        ({
            let h = started(harvest);
            let events = last_action(h, inputs)->Send_0;
            let the_end = events.len() > 0 && *(events.last()->event) is Done;
            let sent = last_action(h, inputs.push(InputView::Sent(true)));
            &&& last_action(h, inputs.push(InputView::Sent(false))) is Stop
            &&& the_end ==> sent is Stop
            &&& !the_end ==> sent is Check
        }),
{
    let h = started(harvest);
    assert(inputs.push(InputView::Sent(true)).drop_last() =~= inputs);
    assert(inputs.push(InputView::Sent(false)).drop_last() =~= inputs);
    let before = run(h, inputs.drop_last());
    lemma_harvest_gives_the_transcript(harvest, inputs.drop_last());
    if before.phase is Reading {
        if let InputView::Fresh(Some(bytes)) = inputs.last() {
            let all = before.carry + bytes;
            let n = transcript_views(all).len();
            if n > 0 {
                lemma_transcript_never_ends_a_run(all, n - 1);
            }
        }
    }
}

/// A check that finds the subagent finished leads to one more read at once.
/// One that finds it at work leads to another in half a second, or to the end
/// where nobody listens any more.
pub proof fn lemma_check_leads_to_a_read(
    harvest: HarvestView,
    inputs: Seq<InputView>,
    meta: Option<Seq<u8>>,
    output: Option<Seq<u8>>,
    closed: bool,
)
    requires
        inputs.len() > 0,
        last_action(started(harvest), inputs) is Check,
    ensures
        ({
            let h = started(harvest);
            let finished = terminal_view(
                file_view(meta),
                output is Some,
                file_view(output),
            ) is Some;
            let read = taken(h, inputs).len() as int;
            let next = last_action(
                h,
                inputs.push(InputView::Status { meta, output, closed }),
            );
            &&& finished ==> next == (ActionView::Read { after_ms: 0, offset: read })
            &&& !finished && !closed ==> next == (ActionView::Read { after_ms: 500, offset: read })
            &&& !finished && closed ==> next is Stop
        }),
{
    let h = started(harvest);
    let more = inputs.push(InputView::Status { meta, output, closed });
    assert(more.drop_last() =~= inputs);
    lemma_harvest_gives_the_transcript(harvest, inputs);
}

/// What does not answer the last action ends the harvest.
pub proof fn lemma_wrong_answer_ends_the_harvest(
    harvest: HarvestView,
    inputs: Seq<InputView>,
    input: InputView,
)
    requires
        inputs.len() > 0,
        match last_action(started(harvest), inputs) {
            ActionView::Find { .. } => !(input is Searched),
            ActionView::Read { .. } => !(input is Fresh),
            ActionView::Send(_) => !(input is Sent),
            ActionView::Check => !(input is Status),
            ActionView::Stop => true,
        },
    ensures
        last_action(started(harvest), inputs.push(input)) is Stop,
{
    assert(inputs.push(input).drop_last() =~= inputs);
}

/// A harvest that was told to stop is told so for good.
pub proof fn lemma_stop_is_for_good(
    harvest: HarvestView,
    inputs: Seq<InputView>,
    input: InputView,
)
    requires
        inputs.len() > 0,
        last_action(started(harvest), inputs) is Stop,
    ensures
        last_action(started(harvest), inputs.push(input)) is Stop,
        taken(started(harvest), inputs.push(input)) == taken(started(harvest), inputs),
        offered(started(harvest), inputs.push(input)) == offered(started(harvest), inputs),
{
    let h = started(harvest);
    assert(inputs.push(input).drop_last() =~= inputs);
    assert(taken(h, inputs) + Seq::<u8>::empty() =~= taken(h, inputs));
    assert(offered(h, inputs) + Seq::<EventView>::empty() =~= offered(h, inputs));
}

/// What is done is what was decided, the events capped.
pub proof fn lemma_action_is_what_was_decided<F: Fn(String) -> String>(
    cap: &F,
    whole: ActionView,
    action: Action,
)
    requires
        capped_action(cap, whole, action),
    ensures
        whole is Find <==> action is Find,
        whole matches ActionView::Find { after_ms } ==> action->Find_after_ms == after_ms,
        whole is Read <==> action is Read,
        whole matches ActionView::Read { after_ms, offset } ==> action->Read_after_ms == after_ms
            && action->offset == offset,
        whole is Send <==> action is Send,
        whole matches ActionView::Send(wholes) ==> all_capped_inside(
            cap,
            wholes,
            action->Send_0@,
        ),
        whole is Check <==> action is Check,
        whole is Stop <==> action is Stop,
{
}

/// What is known of a harvest and of what an action brought is what they hold.
pub proof fn lemma_harvester_and_input_say_what_they_hold(harvester: Harvester, input: Input)
    ensures
        harvester@.offset == harvester.tail.offset,
        harvester@.carry == harvester.tail.carry@,
        harvester@.harvest.parent_tool_use_id == harvester.harvest.parent_tool_use_id@,
        harvester@.harvest.parent_session_id == harvester.harvest.parent_session_id@,
        harvester@.harvest.subagent_id == harvester.harvest.subagent_id@,
        harvester.phase matches Phase::LastReading(ending) ==> harvester@.phase
            == PhaseView::LastReading(ending@),
        input matches Input::Searched { found, closed, elapsed_ms } ==> input@
            == (InputView::Searched { found, closed, elapsed_ms }),
        input matches Input::Fresh(fresh) ==> {
            &&& fresh matches Some(bytes) ==> input@ == InputView::Fresh(Some(bytes@))
            &&& fresh is None ==> input@ == InputView::Fresh(None)
        },
        input matches Input::Sent(all) ==> input@ == InputView::Sent(all),
        input matches Input::Status { meta, output, closed } ==> input@ == (InputView::Status {
            meta: bytes_of(meta),
            output: bytes_of(output),
            closed,
        }),
{
}

} // verus!
