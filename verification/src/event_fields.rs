//! What each line of a stream of server-sent events does to the event that it belongs to.
use vstd::prelude::*;
use vstd::utf8::{encode_utf8, encode_utf8_decode_utf8, encode_utf8_valid_utf8};

use crate::outside::bytes_content;
use crate::sse::{
    characters, event_outcome, event_step, lemma_line_length, raw_outcome, raw_step, read_lines,
    with_line_feeds, EventContent, EventDraft, EventOutcome, EventState, RawOutcome, SseEvent,
    NEWLINE,
};
use crate::stream::{joined, StreamInput, StreamStep};
use crate::text::{
    is_white_space, trimmed, trimmed_start, trimming_drops_the_white_space_behind,
};

verus! {

/// The place at which line `i` begins if `lines` stand one behind the other with one
/// character between each two of them.
pub open spec fn line_start(lines: Seq<Seq<char>>, i: int) -> int
    decreases i,
{
    if i <= 0 {
        0
    } else {
        line_start(lines, i - 1) + lines[i - 1].len() + 1
    }
}

/// `text` cut at every line feed.
pub open spec fn cut_at_feeds(text: Seq<char>) -> Seq<Seq<char>>
    decreases text.len(),
{
    if text.len() == 0 {
        seq![Seq::empty()]
    } else {
        let parts = cut_at_feeds(text.drop_last());
        if text.last() == '\n' {
            parts.push(Seq::empty())
        } else {
            parts.drop_last().push(parts.last().push(text.last()))
        }
    }
}

proof fn lemma_same_start(lines: Seq<Seq<char>>, others: Seq<Seq<char>>, i: int)
    requires
        0 <= i <= lines.len(),
        i <= others.len(),
        forall|j: int| 0 <= j < i ==> lines[j] == others[j],
    ensures
        line_start(lines, i) == line_start(others, i),
        line_start(lines, i) >= 0,
    decreases i,
{
    if i > 0 {
        lemma_same_start(lines, others, i - 1);
    }
}

/// Whether line `i` stands in `text` at its place, whole.
pub open spec fn stands_at_its_place(text: Seq<char>, lines: Seq<Seq<char>>, i: int) -> bool {
    let start = line_start(lines, i);
    &&& 0 <= start
    &&& start + lines[i].len() <= text.len()
    &&& text.subrange(start, start + lines[i].len()) == lines[i]
}

/// Whether a line feed stands in `text` behind line `i`.
pub open spec fn has_feed_behind(text: Seq<char>, lines: Seq<Seq<char>>, i: int) -> bool {
    let end = line_start(lines, i) + lines[i].len();
    0 <= end < text.len() && text[end] == '\n'
}

/// Whether `text` consists of `lines`, whole and in order, with exactly one line feed
/// between each two neighbours, and of nothing else.
pub open spec fn consists_of(text: Seq<char>, lines: Seq<Seq<char>>) -> bool {
    &&& lines.len() == 0 ==> text.len() == 0
    &&& lines.len() > 0 ==> text.len() == line_start(lines, lines.len() as int) - 1
    &&& forall|i: int| 0 <= i < lines.len() ==> #[trigger] stands_at_its_place(text, lines, i)
    &&& forall|i: int| 0 <= i < lines.len() - 1 ==> #[trigger] has_feed_behind(text, lines, i)
}

proof fn lemma_one_more_line(front: Seq<Seq<char>>, before: Seq<char>, last: Seq<char>)
    requires
        front.len() > 0,
        consists_of(before, front),
    ensures
        consists_of(before + seq!['\n'] + last, front.push(last)),
{
    let lines = front.push(last);
    let text = before + seq!['\n'] + last;
    let n = front.len() as int;
    lemma_same_start(lines, front, n);
    assert(line_start(lines, n + 1) == line_start(lines, n) + last.len() + 1);
    assert forall|i: int| 0 <= i < lines.len() implies #[trigger] stands_at_its_place(
        text,
        lines,
        i,
    ) by {
        let start = line_start(lines, i);
        if i < n {
            assert(stands_at_its_place(before, front, i));
            lemma_same_start(lines, front, i);
            assert(text.subrange(start, start + lines[i].len()) =~= before.subrange(
                start,
                start + lines[i].len(),
            ));
        } else {
            assert(text.subrange(start, start + last.len()) =~= last);
        }
    }
    assert forall|i: int| 0 <= i < lines.len() - 1 implies #[trigger] has_feed_behind(
        text,
        lines,
        i,
    ) by {
        lemma_same_start(lines, front, i);
        if i < n - 1 {
            assert(has_feed_behind(before, front, i));
        } else {
            assert(line_start(lines, n) == line_start(lines, i) + lines[i].len() + 1);
            assert(text[before.len() as int] == '\n');
        }
    }
}

/// The data of an event consists of its lines of data, with a line feed between each two.
pub proof fn lines_stand_one_behind_the_other(lines: Seq<Seq<char>>)
    ensures
        consists_of(with_line_feeds(lines), lines),
    decreases lines.len(),
{
    reveal_strlit("\n");
    let text = with_line_feeds(lines);
    if lines.len() == 1 {
        assert(line_start(lines, 0) == 0);
        assert(line_start(lines, 1) == lines[0].len() + 1);
        assert(text.subrange(0, lines[0].len() as int) =~= lines[0]);
    } else if lines.len() > 1 {
        let front = lines.drop_last();
        lines_stand_one_behind_the_other(front);
        lemma_one_more_line(front, with_line_feeds(front), lines.last());
        assert(front.push(lines.last()) =~= lines);
        assert("\n"@ =~= seq!['\n']);
    }
}

proof fn lemma_cut_behind_feed(front: Seq<char>, line: Seq<char>)
    requires
        !line.contains('\n'),
    ensures
        cut_at_feeds(front + "\n"@ + line) == cut_at_feeds(front).push(line),
    decreases line.len(),
{
    reveal_strlit("\n");
    let text = front + "\n"@ + line;
    if line.len() == 0 {
        assert(text.drop_last() =~= front);
        assert(line =~= Seq::empty());
    } else {
        let shorter = line.drop_last();
        assert forall|c: char| shorter.contains(c) implies line.contains(c) by {
            let i = choose|i: int| 0 <= i < shorter.len() && shorter[i] == c;
            assert(line[i] == c);
        }
        assert(line.contains(line.last()));
        lemma_cut_behind_feed(front, shorter);
        assert(text.drop_last() =~= front + "\n"@ + shorter);
        assert(shorter.push(line.last()) =~= line);
        assert(cut_at_feeds(front).push(shorter).drop_last() =~= cut_at_feeds(front));
    }
}

proof fn lemma_cut_one_line(line: Seq<char>)
    requires
        !line.contains('\n'),
    ensures
        cut_at_feeds(line) == seq![line],
    decreases line.len(),
{
    if line.len() == 0 {
        assert(line =~= Seq::empty());
    } else {
        let shorter = line.drop_last();
        assert forall|c: char| shorter.contains(c) implies line.contains(c) by {
            let i = choose|i: int| 0 <= i < shorter.len() && shorter[i] == c;
            assert(line[i] == c);
        }
        assert(line.contains(line.last()));
        lemma_cut_one_line(shorter);
        assert(shorter.push(line.last()) =~= line);
        assert(seq![shorter].drop_last().push(line) =~= seq![line]);
    }
}

/// Cutting the data of an event at every line feed gives its lines of data back, in
/// number and order.
pub proof fn data_is_cut_into_its_lines(lines: Seq<Seq<char>>)
    requires
        lines.len() > 0,
        forall|i: int| 0 <= i < lines.len() ==> !(#[trigger] lines[i]).contains('\n'),
    ensures
        cut_at_feeds(with_line_feeds(lines)) == lines,
    decreases lines.len(),
{
    assert(!lines.last().contains('\n'));
    if lines.len() == 1 {
        lemma_cut_one_line(lines[0]);
        assert(seq![lines[0]] =~= lines);
    } else {
        let front = lines.drop_last();
        assert forall|i: int| 0 <= i < front.len() implies !(#[trigger] front[i]).contains(
            '\n',
        ) by {
            assert(front[i] == lines[i]);
        }
        data_is_cut_into_its_lines(front);
        lemma_cut_behind_feed(with_line_feeds(front), lines.last());
        assert(front.push(lines.last()) =~= lines);
    }
}

/// Something makes an event as soon as a type, an id or a line of data is set. The event
/// has the type and the id that were set, and as its data the lines of data.
pub proof fn an_event_is_what_was_set(draft: EventDraft)
    ensures
        draft.event() is None <==> draft.event_type is None && draft.id is None
            && draft.data_lines.len() == 0,
        draft.event() matches Some(event) ==> {
            &&& event.event_type == draft.event_type
            &&& event.id == draft.id
            &&& consists_of(event.data, draft.data_lines)
        },
{
    lines_stand_one_behind_the_other(draft.data_lines);
}

/// Nothing is set at first.
pub proof fn a_blank_draft_sets_nothing()
    ensures
        EventDraft::blank().event_type is None,
        EventDraft::blank().id is None,
        EventDraft::blank().data_lines.len() == 0,
        EventDraft::blank().event() is None,
{
}

proof fn lemma_prefix(name: Seq<char>, value: Seq<char>)
    ensures
        name.is_prefix_of(name + value),
        (name + value).skip(name.len() as int) == value,
{
    assert((name + value).subrange(0, name.len() as int) =~= name);
    assert((name + value).skip(name.len() as int) =~= value);
}

/// A line of data adds one line behind those that are there, without the white space
/// before it, and sets nothing else.
pub proof fn data_lines_add_up(draft: EventDraft, value: Seq<char>)
    ensures
        ({
            let next = draft.with_line("data:"@ + value);
            &&& next.data_lines.len() == draft.data_lines.len() + 1
            &&& forall|i: int|
                0 <= i < draft.data_lines.len() ==> next.data_lines[i]
                    == #[trigger] draft.data_lines[i]
            &&& next.data_lines.last() == trimmed_start(value)
            &&& next.event_type == draft.event_type
            &&& next.id == draft.id
        }),
{
    lemma_prefix("data:"@, value);
}

/// A line with a type or an id replaces the one that was set and nothing else.
pub proof fn types_and_ids_are_replaced(draft: EventDraft, value: Seq<char>)
    ensures
        ({
            let next = draft.with_line("event:"@ + value);
            &&& next.event_type == Some(trimmed(value))
            &&& next.id == draft.id
            &&& next.data_lines == draft.data_lines
        }),
        ({
            let next = draft.with_line("id:"@ + value);
            &&& next.id == Some(trimmed(value))
            &&& next.event_type == draft.event_type
            &&& next.data_lines == draft.data_lines
        }),
{
    reveal_strlit("data:");
    reveal_strlit("event:");
    reveal_strlit("id:");
    lemma_prefix("event:"@, value);
    lemma_prefix("id:"@, value);
    let event_line = "event:"@ + value;
    let id_line = "id:"@ + value;
    assert(!"data:"@.is_prefix_of(event_line)) by {
        if "data:"@.is_prefix_of(event_line) {
            assert("data:"@[0] == event_line.subrange(0, 5)[0]);
        }
    }
    assert(!"data:"@.is_prefix_of(id_line)) by {
        if "data:"@.is_prefix_of(id_line) {
            assert("data:"@[0] == id_line.subrange(0, 5)[0]);
        }
    }
    assert(!"event:"@.is_prefix_of(id_line)) by {
        if "event:"@.is_prefix_of(id_line) {
            assert("event:"@[0] == id_line.subrange(0, 6)[0]);
        }
    }
}

/// A line with none of the three names sets nothing.
pub proof fn other_lines_set_nothing(draft: EventDraft, line: Seq<char>)
    requires
        forall|value: Seq<char>| line != #[trigger] ("data:"@ + value),
        forall|value: Seq<char>| line != #[trigger] ("event:"@ + value),
        forall|value: Seq<char>| line != #[trigger] ("id:"@ + value),
    ensures
        draft.with_line(line) == draft,
{
    if "data:"@.is_prefix_of(line) {
        assert(line =~= "data:"@ + line.skip("data:"@.len() as int));
    }
    if "event:"@.is_prefix_of(line) {
        assert(line =~= "event:"@ + line.skip("event:"@.len() as int));
    }
    if "id:"@.is_prefix_of(line) {
        assert(line =~= "id:"@ + line.skip("id:"@.len() as int));
    }
}

/// A line of nothing but white space completes what was set, and nothing of it stays;
/// where nothing was set it does nothing.
pub proof fn a_blank_line_completes_the_event(draft: EventDraft, text: Seq<char>)
    requires
        forall|i: int| 0 <= i < text.len() ==> is_white_space(#[trigger] text[i]),
    ensures
        ({
            let (next, event) = draft.with_text(text);
            &&& event == draft.event()
            &&& next.event_type is None
            &&& next.id is None
            &&& next.data_lines.len() == 0
        }),
{
    trimming_drops_the_white_space_behind(Seq::empty(), text);
    assert(Seq::<char>::empty() + text =~= text);
}

/// Any other line counts without the white space at its end, and completes nothing.
pub proof fn a_line_of_text_completes_nothing(
    draft: EventDraft,
    line: Seq<char>,
    end: Seq<char>,
)
    requires
        line.len() > 0,
        !is_white_space(line.last()),
        forall|i: int| 0 <= i < end.len() ==> is_white_space(#[trigger] end[i]),
    ensures
        draft.with_text(line + end) == (draft.with_line(line), None::<EventContent>),
{
    trimming_drops_the_white_space_behind(line, end);
}

/// UTF-8 is read as the text that it encodes.
pub proof fn text_is_decoded(text: Seq<char>)
    ensures
        characters(encode_utf8(text)) == text,
{
    encode_utf8_valid_utf8(text);
    encode_utf8_decode_utf8(text);
}

/// Lines are read one by one off the front, each up to its line feed; the first one that
/// completes an event is the last one that is read.
pub proof fn lines_are_read_one_by_one(draft: EventDraft, line: Seq<u8>, rest: Seq<u8>)
    requires
        forall|i: int| 0 <= i < line.len() ==> #[trigger] line[i] != NEWLINE,
    ensures
        ({
            let (next, event) = draft.with_text(characters(line.push(NEWLINE)));
            read_lines(EventState { buffer: line.push(NEWLINE) + rest, draft })
                == if event is Some {
                (EventState { buffer: rest, draft: next }, event)
            } else {
                read_lines(EventState { buffer: rest, draft: next })
            }
        }),
{
    let bytes = line.push(NEWLINE) + rest;
    lemma_line_length(bytes, line.len() as int);
    assert(bytes.take(line.len() as int + 1) =~= line.push(NEWLINE));
    assert(bytes.skip(line.len() as int + 1) =~= rest);
}

/// Bytes without a line feed are kept until more arrive.
pub proof fn an_unfinished_line_is_kept(draft: EventDraft, bytes: Seq<u8>)
    requires
        forall|i: int| 0 <= i < bytes.len() ==> #[trigger] bytes[i] != NEWLINE,
    ensures
        read_lines(EventState { buffer: bytes, draft }) == (
            EventState { buffer: bytes, draft },
            None::<EventContent>,
        ),
{
    lemma_line_length(bytes, bytes.len() as int);
}

/// A turn reads what is held and what has arrived, and gives out the event that it
/// completes or asks for more. At the end of the body it gives out what was set, once.
pub proof fn a_turn_gives_what_the_lines_complete(state: EventState, bytes: Seq<u8>)
    ensures
        ({
            let (held, event) = read_lines(EventState { buffer: state.buffer + bytes, ..state });
            let (next, outcome) = event_step(state, StreamInput::Chunk(bytes));
            &&& next == held
            &&& event is Some ==> outcome == EventOutcome::Event(event->0)
            &&& event is None ==> outcome is Receive
        }),
        ({
            let (held, event) = read_lines(state);
            let (next, outcome) = event_step(state, StreamInput::Called);
            &&& next == held
            &&& event is Some ==> outcome == EventOutcome::Event(event->0)
            &&& event is None ==> outcome is Receive
        }),
        ({
            let (next, outcome) = event_step(state, StreamInput::Ended);
            &&& next.buffer == state.buffer
            &&& next.draft.event() is None
            &&& state.draft.event() is Some ==> outcome == EventOutcome::Event(
                state.draft.event()->0,
            )
            &&& state.draft.event() is None ==> outcome is End && next == state
        }),
{
}

/// An event that is handed out shows its type, its data and its id, each of them whole.
pub proof fn an_event_shows_all_that_it_holds(event: SseEvent)
    ensures
        event@.data == event.data@,
        match event.event_type {
            Some(text) => event@.event_type == Some(text@),
            None => event@.event_type is None,
        },
        match event.id {
            Some(text) => event@.id == Some(text@),
            None => event@.id is None,
        },
        event_outcome(StreamStep::Return(Some(event))) == EventOutcome::Event(event@),
        event_outcome(StreamStep::Return(None)) is End,
        event_outcome(StreamStep::Receive) is Receive,
{
}

/// What a reader of the raw body gets as the transport delivers `chunks`, asking for each
/// of them in turn.
pub open spec fn raw_reading(chunks: Seq<Seq<u8>>) -> Seq<Seq<u8>>
    decreases chunks.len(),
{
    if chunks.len() == 0 {
        Seq::empty()
    } else {
        let later = raw_reading(chunks.skip(1));
        match (raw_step(StreamInput::Called), raw_step(StreamInput::Chunk(chunks[0]))) {
            (RawOutcome::Receive, RawOutcome::Chunk(bytes)) => seq![bytes] + later,
            _ => later,
        }
    }
}

/// The raw body is handed out as it came: chunk for chunk, byte for byte, up to its end.
pub proof fn the_raw_body_is_handed_out_as_it_came(chunks: Seq<Seq<u8>>)
    ensures
        raw_reading(chunks) == chunks,
        joined(raw_reading(chunks)) == joined(chunks),
        raw_step(StreamInput::Ended) is End,
    decreases chunks.len(),
{
    if chunks.len() == 0 {
        assert(raw_reading(chunks) =~= chunks);
    } else {
        the_raw_body_is_handed_out_as_it_came(chunks.skip(1));
        assert(seq![chunks[0]] + chunks.skip(1) =~= chunks);
    }
}

/// A raw chunk that is handed out holds every byte of its outcome.
pub proof fn a_raw_chunk_is_whole(chunk: bytes::Bytes)
    ensures
        raw_outcome(StreamStep::Return(Some(chunk))) == RawOutcome::Chunk(bytes_content(chunk)),
        raw_outcome(StreamStep::Return(None)) is End,
        raw_outcome(StreamStep::Receive) is Receive,
{
}

} // verus!
