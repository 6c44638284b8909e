//! What holds of a whole stream of server-sent events, however the transport cuts
//! it into chunks.
use vstd::prelude::*;

use crate::sse::{
    after_line, characters, event_step, first_line, has_line, line_length, read_lines,
    EventContent, EventDraft, EventOutcome, EventState, NEWLINE,
};
use crate::stream::{joined, StreamInput};

verus! {

/// `state` with more bytes behind those that it holds.
pub open spec fn with_more(state: EventState, more: Seq<u8>) -> EventState {
    EventState { buffer: state.buffer + more, ..state }
}

/// The state of a reader at the start of a stream.
pub open spec fn fresh() -> EventState {
    EventState { buffer: Seq::empty(), draft: EventDraft::blank() }
}

/// All that a caller gets out of a stream: the events in order. What is left `unread`
/// at the end is a last line without its end.
#[verifier::ext_equal]
pub struct EventReading {
    pub events: Seq<EventContent>,
    pub unread: Seq<u8>,
}

/// An upper bound on the turns that follow without anything being read.
pub open spec fn turns_left(state: EventState, input: StreamInput) -> nat {
    match input {
        StreamInput::Chunk(_) => 5,
        StreamInput::Called => if state.draft.event() is Some {
            4
        } else {
            2
        },
        StreamInput::Ended => if state.draft.event() is Some {
            3
        } else {
            1
        },
    }
}

/// What comes of asking for events until there are no more: the reader is in
/// `state` and is handed `input`, then whenever it wants to receive the next of
/// `chunks`, and behind the last of them the end of the body.
pub open spec fn read_events(
    state: EventState,
    input: StreamInput,
    chunks: Seq<Seq<u8>>,
) -> EventReading
    decreases
            chunks.len(),
            state.buffer.len() + input.bytes().len(),
            turns_left(state, input),
{
    proof {
        lines_are_consumed(with_more(state, input.bytes()));
        assert(input is Called ==> with_more(state, input.bytes()) =~= state);
    }
    let (held, outcome) = event_step(state, input);
    match outcome {
        EventOutcome::End => EventReading { events: Seq::empty(), unread: held.buffer },
        EventOutcome::Event(content) => {
            let later = read_events(held, StreamInput::Called, chunks);
            EventReading { events: seq![content] + later.events, unread: later.unread }
        },
        EventOutcome::Receive => if chunks.len() == 0 {
            read_events(held, StreamInput::Ended, chunks)
        } else {
            read_events(held, StreamInput::Chunk(chunks[0]), chunks.skip(1))
        },
    }
}

/// The events of a body of which nothing is missing, read in one go: those that its
/// lines complete, and behind them what the last lines have set.
pub open spec fn all_events(state: EventState) -> Seq<EventContent>
    decreases state.buffer.len(),
{
    proof {
        lines_are_consumed(state);
    }
    let (held, event) = read_lines(state);
    match event {
        Some(content) => seq![content] + all_events(held),
        None => match held.draft.event() {
            Some(content) => seq![content],
            None => Seq::empty(),
        },
    }
}

/// Reading lines never makes the buffer longer; completing an event makes it
/// shorter and forgets what was set. If no event was completed, no line is left, and
/// nothing has changed unless a line was read.
pub proof fn lines_are_consumed(state: EventState)
    ensures
        ({
            let (held, event) = read_lines(state);
            match event {
                Some(_) => held.buffer.len() < state.buffer.len() && held.draft
                    == EventDraft::blank(),
                None => !has_line(held.buffer) && (held == state || held.buffer.len()
                    < state.buffer.len()),
            }
        }),
    decreases state.buffer.len(),
{
    if has_line(state.buffer) {
        let (draft, event) = state.draft.with_text(characters(first_line(state.buffer)));
        if event is None {
            lines_are_consumed(EventState { buffer: after_line(state.buffer), draft });
        }
    }
}

/// Nothing that one event has set is left for the next.
pub proof fn an_event_leaves_nothing_set(state: EventState, input: StreamInput)
    ensures
        event_step(state, input).1 is Event ==> event_step(state, input).0.draft
            == EventDraft::blank(),
{
    lines_are_consumed(with_more(state, input.bytes()));
    assert(input is Called ==> with_more(state, input.bytes()) =~= state);
}

proof fn lemma_line_is_settled(bytes: Seq<u8>, more: Seq<u8>)
    requires
        has_line(bytes),
    ensures
        line_length(bytes + more) == line_length(bytes),
    decreases bytes.len(),
{
    if bytes[0] != NEWLINE {
        assert((bytes + more).skip(1) =~= bytes.skip(1) + more);
        lemma_line_is_settled(bytes.skip(1), more);
    }
}

/// Bytes that arrive later do not change how the lines before them are read.
proof fn lemma_read_on(state: EventState, more: Seq<u8>)
    ensures
        ({
            let (held, event) = read_lines(state);
            match event {
                Some(_) => read_lines(with_more(state, more)) == (with_more(held, more), event),
                None => read_lines(with_more(state, more)) == read_lines(with_more(held, more)),
            }
        }),
    decreases state.buffer.len(),
{
    if has_line(state.buffer) {
        lemma_line_is_settled(state.buffer, more);
        let (draft, event) = state.draft.with_text(characters(first_line(state.buffer)));
        let rest = after_line(state.buffer);
        assert(first_line(state.buffer + more) =~= first_line(state.buffer));
        assert(after_line(state.buffer + more) =~= rest + more);
        if event is None {
            lemma_read_on(EventState { buffer: rest, draft }, more);
        }
    }
}

/// As long as a chunk completes no event, it makes no difference whether the bytes
/// behind it arrive with it or in a chunk of their own.
pub proof fn split_chunks_read_alike(state: EventState, first: Seq<u8>, second: Seq<u8>)
    requires
        event_step(state, StreamInput::Chunk(first)).1 is Receive,
    ensures
        event_step(
            event_step(state, StreamInput::Chunk(first)).0,
            StreamInput::Chunk(second),
        ) == event_step(state, StreamInput::Chunk(first + second)),
{
    lemma_read_on(with_more(state, first), second);
    assert(state.buffer + first + second =~= state.buffer + (first + second));
}

proof fn lemma_all_events(state: EventState, more: Seq<u8>)
    ensures
        ({
            let (held, event) = read_lines(state);
            match event {
                Some(content) => all_events(with_more(state, more)) == seq![content] + all_events(
                    with_more(held, more),
                ),
                None => all_events(with_more(state, more)) == all_events(with_more(held, more)),
            }
        }),
{
    lemma_read_on(state, more);
}

/// Bytes that arrive count as if they had been held before the call.
proof fn lemma_chunk_joins_buffer(state: EventState, bytes: Seq<u8>, chunks: Seq<Seq<u8>>)
    ensures
        read_events(state, StreamInput::Chunk(bytes), chunks) == read_events(
            with_more(state, bytes),
            StreamInput::Called,
            chunks,
        ),
{
}

/// What is left at the end of the body.
proof fn lemma_last_reading(state: EventState)
    requires
        !has_line(state.buffer),
    ensures
        ({
            let reading = read_events(state, StreamInput::Ended, Seq::empty());
            &&& reading.events == all_events(state)
            &&& !has_line(reading.unread)
        }),
{
    reveal_with_fuel(read_events, 4);
    if let Some(content) = state.draft.event() {
        assert(seq![content] + Seq::<EventContent>::empty() =~= seq![content]);
    }
}

proof fn lemma_reading(state: EventState, chunks: Seq<Seq<u8>>)
    ensures
        ({
            let reading = read_events(state, StreamInput::Called, chunks);
            &&& reading.events == all_events(with_more(state, joined(chunks)))
            &&& !has_line(reading.unread)
        }),
    decreases chunks.len(), state.buffer.len(),
{
    let (held, event) = read_lines(state);
    lines_are_consumed(state);
    lemma_all_events(state, joined(chunks));
    if event is Some {
        lemma_reading(held, chunks);
    } else if chunks.len() == 0 {
        assert(chunks =~= Seq::empty());
        assert(with_more(held, joined(chunks)) =~= held);
        lemma_last_reading(held);
    } else {
        let later = chunks.skip(1);
        let fed = with_more(held, chunks[0]);
        lemma_chunk_joins_buffer(held, chunks[0], later);
        lemma_reading(fed, later);
        assert(with_more(held, joined(chunks)) =~= with_more(fed, joined(later)));
    }
}

/// However the transport cuts the body into chunks, the caller gets every event of the
/// body, in order, before the end is reported.
pub proof fn every_event_is_delivered(chunks: Seq<Seq<u8>>)
    ensures
        read_events(fresh(), StreamInput::Called, chunks).events == all_events(
            with_more(fresh(), joined(chunks)),
        ),
{
    lemma_reading(fresh(), chunks);
}

/// All that is left unread at the end is a last line without its end.
pub proof fn no_whole_line_is_left(chunks: Seq<Seq<u8>>)
    ensures
        !has_line(read_events(fresh(), StreamInput::Called, chunks).unread),
{
    lemma_reading(fresh(), chunks);
}

} // verus!
