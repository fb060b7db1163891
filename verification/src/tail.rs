//! The tail of a transcript that is still being written: bytes come in as
//! they are read, complete lines come out as events, and what is left of a
//! line waits for the rest of it.

use vstd::prelude::*;
use vstd::slice::slice_subrange;

use crate::event::{all_capped, AgentEvent, EventView};
use crate::json::{json_from_slice, parse_bytes};
use crate::transcript::{lemma_line_never_ends_a_run, line_events, line_views};

verus! {

/// The byte that ends a line.
pub const NEWLINE: u8 = 10;

/// The lines of `bytes` that a newline ends, without their newlines.
pub open spec fn complete_lines(bytes: Seq<u8>) -> Seq<Seq<u8>>
    decreases bytes.len(),
{
    proof {
        bytes.index_of_first_ensures(NEWLINE);
    }
    match bytes.index_of_first(NEWLINE) {
        Some(i) => seq![bytes.take(i)] + complete_lines(bytes.skip(i + 1)),
        None => Seq::empty(),
    }
}

/// What follows the last newline of `bytes`.
pub open spec fn partial_line(bytes: Seq<u8>) -> Seq<u8>
    decreases bytes.len(),
{
    proof {
        bytes.index_of_first_ensures(NEWLINE);
    }
    match bytes.index_of_first(NEWLINE) {
        Some(i) => partial_line(bytes.skip(i + 1)),
        None => bytes,
    }
}

/// The events of one line as it was read; a line that is not JSON has none.
pub open spec fn raw_line_views(line: Seq<u8>) -> Seq<EventView> {
    match json_from_slice(line) {
        Some(value) => line_views(value),
        None => Seq::empty(),
    }
}

/// The events of `lines`, one line after another.
pub open spec fn lines_views(lines: Seq<Seq<u8>>) -> Seq<EventView>
    decreases lines.len(),
{
    if lines.len() == 0 {
        Seq::empty()
    } else {
        lines_views(lines.drop_last()) + raw_line_views(lines.last())
    }
}

/// The events of a transcript as far as it is written.
pub open spec fn transcript_views(bytes: Seq<u8>) -> Seq<EventView> {
    lines_views(complete_lines(bytes))
}

/// The first newline is the one that none stands before.
proof fn lemma_first_newline(bytes: Seq<u8>, at: int)
    requires
        0 <= at < bytes.len(),
        bytes[at] == NEWLINE,
        forall|j: int| 0 <= j < at ==> bytes[j] != NEWLINE,
    ensures
        bytes.index_of_first(NEWLINE) == Some(at),
{
    bytes.index_of_first_ensures(NEWLINE);
    assert(bytes.contains(NEWLINE));
}

proof fn lemma_lines_views_concat(a: Seq<Seq<u8>>, b: Seq<Seq<u8>>)
    ensures
        lines_views(a + b) == lines_views(a) + lines_views(b),
    decreases b.len(),
{
    if b.len() == 0 {
        assert(a + b =~= a);
    } else {
        assert((a + b).drop_last() =~= a + b.drop_last());
        lemma_lines_views_concat(a, b.drop_last());
        assert(lines_views(a + b) =~= lines_views(a) + lines_views(b));
    }
}

/// A transcript read in two pieces has the lines that it has read at once:
/// those of the first piece, then those of what the first piece left over with
/// the second piece after it. The same is left over either way.
pub proof fn lemma_reads_add_up(first: Seq<u8>, second: Seq<u8>)
    ensures
        complete_lines(first + second) == complete_lines(first) + complete_lines(
            partial_line(first) + second,
        ),
        partial_line(first + second) == partial_line(partial_line(first) + second),
    decreases first.len(),
{
    first.index_of_first_ensures(NEWLINE);
    match first.index_of_first(NEWLINE) {
        Some(i) => {
            let whole = first + second;
            lemma_first_newline(whole, i);
            assert(whole.take(i) =~= first.take(i));
            assert(whole.skip(i + 1) =~= first.skip(i + 1) + second);
            lemma_reads_add_up(first.skip(i + 1), second);
            assert(complete_lines(whole) =~= complete_lines(first) + complete_lines(
                partial_line(first) + second,
            ));
        },
        None => {
            assert(complete_lines(first) + complete_lines(first + second) =~= complete_lines(
                first + second,
            ));
        },
    }
}

/// The events of a transcript do not depend on where its reads were cut.
pub proof fn lemma_events_add_up(first: Seq<u8>, second: Seq<u8>)
    ensures
        transcript_views(first + second) == transcript_views(first) + transcript_views(
            partial_line(first) + second,
        ),
{
    lemma_reads_add_up(first, second);
    lemma_lines_views_concat(
        complete_lines(first),
        complete_lines(partial_line(first) + second),
    );
}

/// No event of a transcript ends a run or speaks for another agent.
pub proof fn lemma_transcript_never_ends_a_run(bytes: Seq<u8>, i: int)
    requires
        0 <= i < transcript_views(bytes).len(),
    ensures
        !(transcript_views(bytes)[i] is Done),
        !(transcript_views(bytes)[i] is Subagent),
{
    lemma_lines_never_end_a_run(complete_lines(bytes), i);
}

proof fn lemma_lines_never_end_a_run(lines: Seq<Seq<u8>>, i: int)
    requires
        0 <= i < lines_views(lines).len(),
    ensures
        !(lines_views(lines)[i] is Done),
        !(lines_views(lines)[i] is Subagent),
    decreases lines.len(),
{
    let before = lines_views(lines.drop_last());
    if i < before.len() {
        lemma_lines_never_end_a_run(lines.drop_last(), i);
    } else {
        lemma_line_never_ends_a_run(json_from_slice(lines.last())->0, i - before.len());
    }
}

/// What is left over never holds a newline, and with nothing but a partial
/// line no line is complete.
pub proof fn lemma_partial_line_is_partial(bytes: Seq<u8>)
    ensures
        !partial_line(bytes).contains(NEWLINE),
        complete_lines(partial_line(bytes)) == Seq::<Seq<u8>>::empty(),
        partial_line(partial_line(bytes)) == partial_line(bytes),
    decreases bytes.len(),
{
    bytes.index_of_first_ensures(NEWLINE);
    match bytes.index_of_first(NEWLINE) {
        Some(i) => {
            lemma_partial_line_is_partial(bytes.skip(i + 1));
        },
        None => {},
    }
}

/// `lines`, each with a newline behind it.
pub open spec fn with_newlines(lines: Seq<Seq<u8>>) -> Seq<u8>
    decreases lines.len(),
{
    if lines.len() == 0 {
        Seq::empty()
    } else {
        lines[0].push(NEWLINE) + with_newlines(lines.drop_first())
    }
}

/// Nothing is lost: the complete lines with their newlines, then the partial
/// line, are the bytes that were read.
pub proof fn lemma_no_byte_is_lost(bytes: Seq<u8>)
    ensures
        with_newlines(complete_lines(bytes)) + partial_line(bytes) == bytes,
    decreases bytes.len(),
{
    bytes.index_of_first_ensures(NEWLINE);
    match bytes.index_of_first(NEWLINE) {
        Some(i) => {
            let rest = bytes.skip(i + 1);
            lemma_no_byte_is_lost(rest);
            assert(complete_lines(bytes).drop_first() =~= complete_lines(rest));
            assert(bytes =~= bytes.take(i).push(NEWLINE) + rest);
            assert(with_newlines(complete_lines(bytes)) + partial_line(bytes) =~= bytes.take(
                i,
            ).push(NEWLINE) + (with_newlines(complete_lines(rest)) + partial_line(rest)));
        },
        None => {
            assert(with_newlines(complete_lines(bytes)) + partial_line(bytes) =~= bytes);
        },
    }
}

/// Where the reading of a transcript stands.
#[derive(Debug, PartialEq)]
pub struct Tail {
    /// How many bytes have been read.
    pub offset: u64,
    /// The partial line at the end of them.
    pub carry: Vec<u8>,
}

proof fn lemma_all_capped_concat<F: Fn(String) -> String>(
    cap: &F,
    wholes: Seq<EventView>,
    events: Seq<AgentEvent>,
    more_wholes: Seq<EventView>,
    more_events: Seq<AgentEvent>,
)
    requires
        all_capped(cap, wholes, events),
        all_capped(cap, more_wholes, more_events),
    ensures
        all_capped(cap, wholes + more_wholes, events + more_events),
{
}

impl Tail {
    /// Nothing has been read yet.
    pub fn new() -> (r: Tail)
        ensures
            r.offset == 0,
            r.carry@ == Seq::<u8>::empty(),
    {
        Tail { offset: 0, carry: Vec::new() }
    }

    /// Takes in the bytes that were read past `offset` and gives the events of
    /// the lines that they complete. A partial line at their end carries over.
    pub fn drain_lines<F: Fn(String) -> String>(&mut self, fresh: &[u8], cap: &F) -> (r: Vec<
        AgentEvent,
    >)
        requires
            old(self).offset + fresh@.len() <= u64::MAX,
            forall|s: String| call_requires(*cap, (s,)),
        ensures
            final(self).offset == old(self).offset + fresh@.len(),
            final(self).carry@ == partial_line(old(self).carry@ + fresh@),
            all_capped(cap, transcript_views(old(self).carry@ + fresh@), r@),
    {
        self.offset = self.offset + fresh.len() as u64;
        self.carry.extend_from_slice(fresh);
        let ghost all = old(self).carry@ + fresh@;
        assert(self.carry@ =~= all);
        let mut events: Vec<AgentEvent> = Vec::new();
        let mut start: usize = 0;
        let ghost mut done: Seq<Seq<u8>> = Seq::empty();
        assert(all.skip(0) =~= all);
        assert(done + complete_lines(all) =~= complete_lines(all));
        for i in 0..self.carry.len()
            invariant
                self.carry@ == all,
                self.offset == old(self).offset + fresh@.len(),
                forall|s: String| call_requires(*cap, (s,)),
                start <= i,
                forall|j: int| start <= j < i ==> all[j] != NEWLINE,
                complete_lines(all) == done + complete_lines(all.skip(start as int)),
                partial_line(all) == partial_line(all.skip(start as int)),
                all_capped(cap, lines_views(done), events@),
        {
            if self.carry[i] == NEWLINE {
                let line: &[u8] = slice_subrange(self.carry.as_slice(), start, i);
                let ghost left = all.skip(start as int);
                let ghost longer = done.push(line@);
                let ghost had = events@;
                proof {
                    lemma_first_newline(left, i - start);
                    assert(line@ =~= left.take(i - start));
                    assert(left.skip(i - start + 1) =~= all.skip(i + 1));
                    assert(longer.drop_last() =~= done);
                    assert(complete_lines(all) =~= longer + complete_lines(all.skip(i + 1)));
                }
                if let Some(value) = parse_bytes(line) {
                    let mut found: Vec<AgentEvent> = line_events(&value, cap);
                    proof {
                        lemma_all_capped_concat(
                            cap,
                            lines_views(done),
                            had,
                            line_views(value@),
                            found@,
                        );
                    }
                    events.append(&mut found);
                } else {
                    assert(lines_views(longer) =~= lines_views(done));
                }
                start = i + 1;
                proof {
                    done = longer;
                }
            }
        }
        let rest: Vec<u8> = self.carry.split_off(start);
        proof {
            assert(rest@ =~= all.skip(start as int));
            rest@.index_of_first_ensures(NEWLINE);
            assert(complete_lines(rest@) == Seq::<Seq<u8>>::empty());
            assert(complete_lines(all) =~= done);
        }
        self.carry = rest;
        events
    }
}

/// A complete line holds no line feed.
pub proof fn lemma_complete_line_holds_no_line_feed(bytes: Seq<u8>, i: int)
    requires
        0 <= i < complete_lines(bytes).len(),
    ensures
        !complete_lines(bytes)[i].contains(10u8),
    decreases bytes.len(),
{
    bytes.index_of_first_ensures(NEWLINE);
    if let Some(at) = bytes.index_of_first(NEWLINE) {
        if i > 0 {
            lemma_complete_line_holds_no_line_feed(bytes.skip(at + 1), i - 1);
        } else {
            assert(complete_lines(bytes)[0] =~= bytes.take(at));
        }
    }
}

/// What is written behind a line feed completes the line before it, and what
/// is written without one completes nothing.
pub proof fn lemma_line_feed_completes_a_line(line: Seq<u8>)
    requires
        !line.contains(10u8),
    ensures
        complete_lines(line) == Seq::<Seq<u8>>::empty(),
        partial_line(line) == line,
        complete_lines(line.push(10u8)) == seq![line],
        partial_line(line.push(10u8)) == Seq::<u8>::empty(),
{
    line.index_of_first_ensures(NEWLINE);
    let ended = line.push(10u8);
    assert(ended[line.len() as int] == NEWLINE);
    lemma_first_newline(ended, line.len() as int);
    assert(ended.take(line.len() as int) =~= line);
    let rest = ended.skip(line.len() as int + 1);
    rest.index_of_first_ensures(NEWLINE);
    assert(rest.index_of_first(NEWLINE) is None);
    assert(rest =~= Seq::empty());
    assert(ended.index_of_first(NEWLINE) == Some(line.len() as int));
    assert(partial_line(ended) == partial_line(rest));
    assert(complete_lines(rest) == Seq::<Seq<u8>>::empty());
    assert(complete_lines(ended) == seq![line] + complete_lines(rest));
    assert(complete_lines(ended) =~= seq![line]);
}

/// A line that is JSON gives the events of its message, once and behind those
/// of all lines before it; one that is not gives none.
pub proof fn lemma_every_line_gives_its_events(written: Seq<u8>, line: Seq<u8>)
    requires
        partial_line(written).len() == 0,
        !line.contains(10u8),
    ensures
        json_from_slice(line) matches Some(message) ==> transcript_views(
            written + line.push(10u8),
        ) == transcript_views(written) + line_views(message),
        json_from_slice(line) is None ==> transcript_views(written + line.push(10u8))
            == transcript_views(written),
        transcript_views(written + line) == transcript_views(written),
        transcript_views(Seq::empty()).len() == 0,
{
    let ended = line.push(10u8);
    lemma_events_add_up(written, ended);
    lemma_events_add_up(written, line);
    assert(partial_line(written) + ended =~= ended);
    assert(partial_line(written) + line =~= line);
    lemma_line_feed_completes_a_line(line);
    assert(seq![line].drop_last() =~= Seq::empty());
    assert(lines_views(seq![line]) =~= raw_line_views(line));
    assert(transcript_views(written) + transcript_views(line) =~= transcript_views(written));
    Seq::<u8>::empty().index_of_first_ensures(NEWLINE);
    if json_from_slice(line) is None {
        assert(transcript_views(written) + transcript_views(ended) =~= transcript_views(written));
    }
}

} // verus!
