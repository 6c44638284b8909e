//! How the lines of a stream of server-sent events end: with a line feed or with a
//! carriage return and a line feed, and never with white space in what is read.
use vstd::prelude::*;
use vstd::utf8::{
    decode_utf8, decode_utf8_split, encode_utf8, encode_utf8_decode_utf8, encode_utf8_valid_utf8,
    is_ascii_chars_encode_utf8, is_char_boundary_iff_not_is_continuation_byte, valid_utf8,
    valid_utf8_concat, valid_utf8_split,
};

use crate::event_laws::{
    all_events, every_event_is_delivered, fresh, lines_are_consumed, read_events, with_more,
};
use crate::outside::lossy_chars;
use crate::sse::{
    after_line, characters, first_line, has_line, lemma_line_length, line_length, read_lines,
    EventContent, EventDraft, EventState, NEWLINE,
};
use crate::stream::{joined, StreamInput};
use crate::text::{
    ascii_end, ascii_text, before_ascii_end, is_white_space, trimmed_end, trimmed_start,
};

verus! {

/// The carriage return that may stand before the end of a line.
pub const CARRIAGE_RETURN: u8 = 13;

/// `bytes` with a carriage return before every line feed.
pub open spec fn with_returns(bytes: Seq<u8>) -> Seq<u8>
    decreases bytes.len(),
{
    if bytes.len() == 0 {
        Seq::empty()
    } else if bytes[0] == NEWLINE {
        seq![CARRIAGE_RETURN, NEWLINE] + with_returns(bytes.skip(1))
    } else {
        seq![bytes[0]] + with_returns(bytes.skip(1))
    }
}

/// `state` with a carriage return before every line feed that it holds.
pub open spec fn state_with_returns(state: EventState) -> EventState {
    EventState { buffer: with_returns(state.buffer), ..state }
}

/// Only the first line changes up to its end.
proof fn lemma_first_line(bytes: Seq<u8>)
    ensures
        line_length(bytes) <= bytes.len(),
        forall|j: int| 0 <= j < line_length(bytes) ==> bytes[j] != NEWLINE,
        if has_line(bytes) {
            let n = line_length(bytes) as int;
            &&& bytes[n] == NEWLINE
            &&& with_returns(bytes) == bytes.take(n) + seq![CARRIAGE_RETURN, NEWLINE]
                + with_returns(after_line(bytes))
        } else {
            with_returns(bytes) == bytes
        },
    decreases bytes.len(),
{
    if bytes.len() == 0 {
        assert(with_returns(bytes) =~= bytes);
    } else if bytes[0] == NEWLINE {
        assert(bytes.take(0) + seq![CARRIAGE_RETURN, NEWLINE] =~= seq![CARRIAGE_RETURN, NEWLINE]);
    } else {
        let rest = bytes.skip(1);
        lemma_first_line(rest);
        assert forall|j: int| 0 <= j < line_length(bytes) implies bytes[j] != NEWLINE by {
            if j > 0 {
                assert(bytes[j] == rest[j - 1]);
            }
        }
        if has_line(bytes) {
            let n = line_length(bytes) as int;
            assert(after_line(rest) =~= after_line(bytes));
            assert(bytes.take(n) =~= seq![bytes[0]] + rest.take(n - 1));
            assert(with_returns(bytes) =~= bytes.take(n) + seq![CARRIAGE_RETURN, NEWLINE]
                + with_returns(after_line(bytes)));
        } else {
            assert(with_returns(bytes) =~= bytes);
        }
    }
}

/// The characters of text with ASCII behind it.
proof fn lemma_ascii_end(text: Seq<u8>, end: Seq<char>)
    requires
        valid_utf8(text),
        end.len() > 0,
        forall|i: int| 0 <= i < end.len() ==> '\0' <= #[trigger] end[i] <= '\u{7f}',
    ensures
        valid_utf8(text + encode_utf8(end)),
        decode_utf8(text + encode_utf8(end)) == decode_utf8(text) + end,
{
    let tail = encode_utf8(end);
    let all = text + tail;
    let n = text.len() as int;
    is_ascii_chars_encode_utf8(end);
    encode_utf8_valid_utf8(end);
    encode_utf8_decode_utf8(end);
    valid_utf8_concat(text, tail);
    assert(all[n] == tail[0]);
    assert(tail[0] == end[0] as u8);
    is_char_boundary_iff_not_is_continuation_byte(all, n);
    decode_utf8_split(all, n);
    assert(all.subrange(0, n) =~= text);
    assert(all.subrange(n, all.len() as int) =~= tail);
}

proof fn lemma_before_ascii_end_shrinks(bytes: Seq<u8>)
    ensures
        before_ascii_end(bytes).len() <= bytes.len(),
    decreases bytes.len(),
{
    if bytes.len() > 0 && bytes.last() < 128 {
        lemma_before_ascii_end_shrinks(bytes.drop_last());
    }
}

/// One more byte of ASCII at the end is one more character there.
proof fn lemma_longer_ascii_end(bytes: Seq<u8>, b: u8)
    requires
        b < 128,
    ensures
        before_ascii_end(bytes.push(b)) == before_ascii_end(bytes),
        ascii_text(ascii_end(bytes.push(b))) == ascii_text(ascii_end(bytes)).push(b as char),
{
    assert(bytes.push(b).drop_last() =~= bytes);
    lemma_before_ascii_end_shrinks(bytes);
    assert(ascii_end(bytes.push(b)) =~= ascii_end(bytes).push(b));
    assert(ascii_text(ascii_end(bytes.push(b))) =~= ascii_text(ascii_end(bytes)).push(b as char));
}

/// Bytes with ASCII behind them are valid UTF-8 only if they are.
proof fn lemma_valid_before_ascii(text: Seq<u8>, end: Seq<u8>)
    requires
        valid_utf8(text + end),
        end.len() > 0,
        end[0] < 128,
    ensures
        valid_utf8(text),
{
    let line = text + end;
    let n = text.len() as int;
    assert(line[n] == end[0]);
    is_char_boundary_iff_not_is_continuation_byte(line, n);
    valid_utf8_split(line, n);
    assert(line.subrange(0, n) =~= text);
}

/// The characters of a line with either end.
proof fn lemma_line_ends(text: Seq<u8>)
    ensures
        exists|chars: Seq<char>| #![trigger chars.push('\n')]
            characters(text + seq![NEWLINE]) == chars.push('\n') && characters(
                text + seq![CARRIAGE_RETURN, NEWLINE],
            ) == chars.push('\r').push('\n'),
{
    let line = text + seq![NEWLINE];
    let longer = text + seq![CARRIAGE_RETURN, NEWLINE];
    let feed = seq!['\n'];
    let both = seq!['\r', '\n'];
    is_ascii_chars_encode_utf8(feed);
    is_ascii_chars_encode_utf8(both);
    assert(encode_utf8(feed)[0] == feed[0] as u8);
    assert(encode_utf8(both)[0] == both[0] as u8);
    assert(encode_utf8(both)[1] == both[1] as u8);
    assert(encode_utf8(feed) =~= seq![NEWLINE]);
    assert(encode_utf8(both) =~= seq![CARRIAGE_RETURN, NEWLINE]);
    if valid_utf8(text) {
        let chars = decode_utf8(text);
        lemma_ascii_end(text, feed);
        lemma_ascii_end(text, both);
        assert(chars + feed =~= chars.push('\n'));
        assert(chars + both =~= chars.push('\r').push('\n'));
    } else {
        if valid_utf8(line) {
            lemma_valid_before_ascii(text, seq![NEWLINE]);
        }
        if valid_utf8(longer) {
            lemma_valid_before_ascii(text, seq![CARRIAGE_RETURN, NEWLINE]);
        }
        let chars = lossy_chars(before_ascii_end(text)) + ascii_text(ascii_end(text));
        assert(line =~= text.push(NEWLINE));
        assert(longer =~= text.push(CARRIAGE_RETURN).push(NEWLINE));
        lemma_longer_ascii_end(text, NEWLINE);
        lemma_longer_ascii_end(text, CARRIAGE_RETURN);
        lemma_longer_ascii_end(text.push(CARRIAGE_RETURN), NEWLINE);
        assert(characters(line) =~= chars.push('\n'));
        assert(characters(longer) =~= chars.push('\r').push('\n'));
    }
}

/// A carriage return before the end of a line is not part of its text.
proof fn lemma_return_is_no_text(text: Seq<u8>)
    ensures
        trimmed_end(characters(text + seq![CARRIAGE_RETURN, NEWLINE])) == trimmed_end(
            characters(text + seq![NEWLINE]),
        ),
{
    lemma_line_ends(text);
    let chars = choose|chars: Seq<char>| #![trigger chars.push('\n')]
        characters(text + seq![NEWLINE]) == chars.push('\n') && characters(
            text + seq![CARRIAGE_RETURN, NEWLINE],
        ) == chars.push('\r').push('\n');
    reveal_with_fuel(trimmed_end, 3);
    assert(chars.push('\n').drop_last() =~= chars);
    assert(chars.push('\r').push('\n').drop_last() =~= chars.push('\r'));
    assert(chars.push('\r').drop_last() =~= chars);
}

/// Lines that end with a carriage return and a line feed are read like lines
/// that end with a line feed: the same event is completed, the same is set, and as much
/// is left.
pub proof fn line_ends_read_alike(state: EventState)
    ensures
        ({
            let (held, event) = read_lines(state);
            read_lines(state_with_returns(state)) == (state_with_returns(held), event)
        }),
    decreases state.buffer.len(),
{
    let bytes = state.buffer;
    let n = line_length(bytes) as int;
    lemma_first_line(bytes);
    if has_line(bytes) {
        let text = bytes.take(n);
        let longer = with_returns(bytes);
        assert(longer[n] == CARRIAGE_RETURN);
        assert(longer[n + 1] == NEWLINE);
        assert forall|j: int| 0 <= j < n + 1 implies longer[j] != NEWLINE by {
            if j < n {
                assert(longer[j] == bytes[j]);
            }
        }
        lemma_line_length(longer, n + 1);
        assert(first_line(longer) =~= text + seq![CARRIAGE_RETURN, NEWLINE]);
        assert(first_line(bytes) =~= text + seq![NEWLINE]);
        assert(after_line(longer) =~= with_returns(after_line(bytes)));
        lemma_return_is_no_text(text);
        let (draft, event) = state.draft.with_text(characters(first_line(bytes)));
        if event is None {
            line_ends_read_alike(EventState { buffer: after_line(bytes), draft });
        }
    }
}

proof fn lemma_all_events_read_alike(state: EventState)
    ensures
        all_events(state_with_returns(state)) == all_events(state),
    decreases state.buffer.len(),
{
    let (held, event) = read_lines(state);
    line_ends_read_alike(state);
    lines_are_consumed(state);
    if event is Some {
        lemma_all_events_read_alike(held);
    }
}

/// Two bodies that differ only in whether their lines end with a line feed or
/// with a carriage return and a line feed give a caller the same events, however the
/// transport cuts them into chunks.
pub proof fn bodies_with_returns_read_alike(chunks: Seq<Seq<u8>>, others: Seq<Seq<u8>>)
    requires
        joined(others) == with_returns(joined(chunks)),
    ensures
        read_events(fresh(), StreamInput::Called, others).events == read_events(
            fresh(),
            StreamInput::Called,
            chunks,
        ).events,
{
    let state = with_more(fresh(), joined(chunks));
    every_event_is_delivered(chunks);
    every_event_is_delivered(others);
    assert(state.buffer =~= joined(chunks));
    assert(with_more(fresh(), joined(others)).buffer =~= joined(others));
    assert(with_more(fresh(), joined(others)) == state_with_returns(state));
    lemma_all_events_read_alike(state);
}

/// The transport may deliver the same chunks with a carriage return before every line
/// feed: call for call the caller gets the same.
pub proof fn chunks_with_returns_read_alike(chunks: Seq<Seq<u8>>)
    ensures
        read_events(
            fresh(),
            StreamInput::Called,
            chunks.map_values(|bytes: Seq<u8>| with_returns(bytes)),
        ).events == read_events(fresh(), StreamInput::Called, chunks).events,
{
    lemma_returns_by_chunk(chunks);
    bodies_with_returns_read_alike(
        chunks,
        chunks.map_values(|bytes: Seq<u8>| with_returns(bytes)),
    );
}

/// A carriage return before every line feed of a body is one before every line feed of
/// each of its chunks.
proof fn lemma_returns_by_chunk(chunks: Seq<Seq<u8>>)
    ensures
        joined(chunks.map_values(|bytes: Seq<u8>| with_returns(bytes))) == with_returns(
            joined(chunks),
        ),
    decreases chunks.len(),
{
    let others = chunks.map_values(|bytes: Seq<u8>| with_returns(bytes));
    if chunks.len() > 0 {
        let later = chunks.skip(1);
        lemma_returns_by_chunk(later);
        assert(others.skip(1) =~= later.map_values(|bytes: Seq<u8>| with_returns(bytes)));
        lemma_returns_join(chunks[0], joined(later));
    }
}

proof fn lemma_returns_join(first: Seq<u8>, second: Seq<u8>)
    ensures
        with_returns(first + second) == with_returns(first) + with_returns(second),
    decreases first.len(),
{
    if first.len() == 0 {
        assert(first + second =~= second);
        assert(with_returns(first) + with_returns(second) =~= with_returns(second));
    } else {
        assert((first + second).skip(1) =~= first.skip(1) + second);
        lemma_returns_join(first.skip(1), second);
        assert(with_returns(first + second) =~= with_returns(first) + with_returns(second));
    }
}

/// Whether `text` does not end in white space.
pub open spec fn tidy_text(text: Seq<char>) -> bool {
    text.len() > 0 ==> !is_white_space(text.last())
}

/// Whether no part of `draft` ends in white space.
pub open spec fn tidy(draft: EventDraft) -> bool {
    &&& draft.event_type matches Some(text) ==> tidy_text(text)
    &&& draft.id matches Some(text) ==> tidy_text(text)
    &&& forall|i: int|
        0 <= i < draft.data_lines.len() ==> tidy_text(#[trigger] draft.data_lines[i])
}

/// Whether neither the type nor the id of an event nor any of its lines of data ends in
/// white space.
pub open spec fn tidy_event(event: EventContent) -> bool {
    exists|draft: EventDraft| #![trigger draft.event()]
        tidy(draft) && draft.event() == Some(event)
}

proof fn lemma_trimmed_end_is_tidy(s: Seq<char>)
    ensures
        tidy_text(trimmed_end(s)),
    decreases s.len(),
{
    if s.len() > 0 && is_white_space(s.last()) {
        lemma_trimmed_end_is_tidy(s.drop_last());
    }
}

proof fn lemma_trimmed_start_stays_tidy(s: Seq<char>)
    requires
        tidy_text(s),
    ensures
        tidy_text(trimmed_start(s)),
    decreases s.len(),
{
    if s.len() > 0 && is_white_space(s[0]) {
        lemma_trimmed_start_stays_tidy(s.skip(1));
    }
}

proof fn lemma_text_stays_tidy(draft: EventDraft, text: Seq<char>)
    requires
        tidy(draft),
    ensures
        tidy(draft.with_text(text).0),
        draft.with_text(text).1 matches Some(event) ==> tidy_event(event),
{
    let line = trimmed_end(text);
    lemma_trimmed_end_is_tidy(text);
    if line.len() > 0 {
        if "data:"@.is_prefix_of(line) {
            lemma_trimmed_start_stays_tidy(line.skip("data:"@.len() as int));
        }
        lemma_trimmed_end_is_tidy(trimmed_start(line.skip("event:"@.len() as int)));
        lemma_trimmed_end_is_tidy(trimmed_start(line.skip("id:"@.len() as int)));
    }
}

proof fn lemma_lines_stay_tidy(state: EventState)
    requires
        tidy(state.draft),
    ensures
        tidy(read_lines(state).0.draft),
        read_lines(state).1 matches Some(event) ==> tidy_event(event),
    decreases state.buffer.len(),
{
    if has_line(state.buffer) {
        let text = characters(first_line(state.buffer));
        let (draft, event) = state.draft.with_text(text);
        lemma_text_stays_tidy(state.draft, text);
        if event is None {
            lemma_lines_stay_tidy(EventState { buffer: after_line(state.buffer), draft });
        }
    }
}

proof fn lemma_all_events_are_tidy(state: EventState)
    requires
        tidy(state.draft),
    ensures
        forall|i: int|
            0 <= i < all_events(state).len() ==> tidy_event(#[trigger] all_events(state)[i]),
    decreases state.buffer.len(),
{
    let (held, event) = read_lines(state);
    lines_are_consumed(state);
    lemma_lines_stay_tidy(state);
    if let Some(content) = event {
        lemma_all_events_are_tidy(held);
        let all = all_events(state);
        assert forall|i: int| 0 <= i < all.len() implies tidy_event(#[trigger] all[i]) by {
            if i > 0 {
                assert(all[i] == all_events(held)[i - 1]);
            }
        }
    }
}

/// No event that a caller gets has a type, an id or a line of data that ends in white
/// space, a carriage return included.
pub proof fn nothing_ends_in_white_space(chunks: Seq<Seq<u8>>)
    ensures
        ({
            let events = read_events(fresh(), StreamInput::Called, chunks).events;
            forall|i: int| 0 <= i < events.len() ==> tidy_event(#[trigger] events[i])
        }),
{
    every_event_is_delivered(chunks);
    lemma_all_events_are_tidy(with_more(fresh(), joined(chunks)));
}

} // verus!
