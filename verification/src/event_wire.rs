//! Events as a server writes them, and how they are read back.
use vstd::prelude::*;
use vstd::utf8::{
    encode_scalar, encode_utf8, encode_utf8_decode_utf8, encode_utf8_valid_utf8,
    has_width_1_encoding, leading_byte_width_1,
};

use crate::event_laws::{all_events, every_event_is_delivered, fresh, read_events, with_more};
use crate::sse::{
    after_line, characters, first_line, has_line, lemma_line_length, read_lines, EventContent,
    EventDraft, EventState, NEWLINE,
};
use crate::stream::{joined, StreamInput};
use crate::text::{is_white_space, trimmed_end, trimmed_start};

verus! {

/// Text that fits in one line and has no white space at its ends.
pub open spec fn plain(text: Seq<char>) -> bool {
    &&& !text.contains('\n')
    &&& trimmed_start(text) == text
    &&& trimmed_end(text) == text
}

/// A draft of which every part is plain text.
pub open spec fn plain_draft(draft: EventDraft) -> bool {
    &&& draft.event_type matches Some(text) ==> plain(text)
    &&& draft.id matches Some(text) ==> plain(text)
    &&& forall|i: int| 0 <= i < draft.data_lines.len() ==> plain(#[trigger] draft.data_lines[i])
}

/// The lines with which a server sends `draft`, without the line that completes it.
pub open spec fn field_lines(draft: EventDraft) -> Seq<Seq<char>> {
    let event_type = match draft.event_type {
        Some(text) => seq!["event: "@ + text],
        None => Seq::empty(),
    };
    let id = match draft.id {
        Some(text) => seq!["id: "@ + text],
        None => Seq::empty(),
    };
    event_type + draft.data_lines.map_values(|line: Seq<char>| "data: "@ + line) + id
}

/// The bytes of `lines`, each with its line feed.
pub open spec fn line_bytes(lines: Seq<Seq<char>>) -> Seq<u8>
    decreases lines.len(),
{
    if lines.len() == 0 {
        Seq::empty()
    } else {
        encode_utf8(lines[0].push('\n')) + line_bytes(lines.skip(1))
    }
}

/// The bytes with which a server sends `draft`: its lines and an empty line.
pub open spec fn event_bytes(draft: EventDraft) -> Seq<u8> {
    line_bytes(field_lines(draft)) + encode_utf8(seq!['\n'])
}

/// The bytes with which a server sends `drafts`, one behind the other.
pub open spec fn events_bytes(drafts: Seq<EventDraft>) -> Seq<u8>
    decreases drafts.len(),
{
    if drafts.len() == 0 {
        Seq::empty()
    } else {
        event_bytes(drafts[0]) + events_bytes(drafts.skip(1))
    }
}

/// Whether each of `drafts` is an event of plain text.
pub open spec fn all_plain_events(drafts: Seq<EventDraft>) -> bool {
    forall|i: int|
        0 <= i < drafts.len() ==> plain_draft(#[trigger] drafts[i]) && drafts[i].event() is Some
}

/// The events that `drafts` amount to.
pub open spec fn contents(drafts: Seq<EventDraft>) -> Seq<EventContent> {
    drafts.map_values(|draft: EventDraft| draft.event()->0)
}

/// Whether `line` fits in one line and does not end the event.
pub open spec fn is_field_line(line: Seq<char>) -> bool {
    !line.contains('\n') && trimmed_end(line).len() > 0
}

/// `draft` behind the texts of `lines`.
pub open spec fn with_lines(draft: EventDraft, lines: Seq<Seq<char>>) -> EventDraft
    decreases lines.len(),
{
    if lines.len() == 0 {
        draft
    } else {
        with_lines(draft.with_line(trimmed_end(lines[0])), lines.skip(1))
    }
}

proof fn lemma_scalar_bytes(c: char)
    requires
        c != '\n',
    ensures
        forall|i: int|
            0 <= i < encode_scalar(c as u32).len() ==> #[trigger] encode_scalar(c as u32)[i]
                != NEWLINE,
{
    let v = c as u32;
    if has_width_1_encoding(v) {
        assert(leading_byte_width_1(v) == v) by (bit_vector)
            requires
                v <= 0x7f,
        ;
    } else {
        assert((0xc0u8 | ((v >> 6) & 0x1f) as u8) >= 0x80) by (bit_vector);
        assert((0xe0u8 | ((v >> 12) & 0x0f) as u8) >= 0x80) by (bit_vector);
        assert((0xf0u8 | ((v >> 18) & 0x7) as u8) >= 0x80) by (bit_vector);
        assert((0x80u8 | (v & 0x3f) as u8) >= 0x80) by (bit_vector);
        assert((0x80u8 | ((v >> 6) & 0x3f) as u8) >= 0x80) by (bit_vector);
        assert((0x80u8 | ((v >> 12) & 0x3f) as u8) >= 0x80) by (bit_vector);
    }
}

/// The line feed behind a text is the only one among its bytes.
proof fn lemma_encoded_line(text: Seq<char>)
    requires
        !text.contains('\n'),
    ensures
        ({
            let bytes = encode_utf8(text.push('\n'));
            &&& bytes.len() > 0
            &&& bytes.last() == NEWLINE
            &&& forall|i: int| 0 <= i < bytes.len() - 1 ==> bytes[i] != NEWLINE
        }),
    decreases text.len(),
{
    let bytes = encode_utf8(text.push('\n'));
    if text.len() == 0 {
        let v = '\n' as u32;
        assert(leading_byte_width_1(v) == v) by (bit_vector)
            requires
                v <= 0x7f,
        ;
        assert(text.push('\n').drop_first() =~= Seq::empty());
        reveal_with_fuel(encode_utf8, 2);
        assert(text.push('\n')[0] == '\n');
        assert(bytes =~= encode_scalar(v));
    } else {
        let rest = text.drop_first();
        assert(text.contains(text[0]));
        assert forall|c: char| rest.contains(c) implies text.contains(c) by {
            let i = choose|i: int| 0 <= i < rest.len() && rest[i] == c;
            assert(text[i + 1] == c);
        }
        lemma_encoded_line(rest);
        lemma_scalar_bytes(text[0]);
        assert(text.push('\n').drop_first() =~= rest.push('\n'));
    }
}

/// A line that a server sends is read as its text.
proof fn lemma_line_is_read(text: Seq<char>, rest: Seq<u8>)
    requires
        !text.contains('\n'),
    ensures
        ({
            let bytes = encode_utf8(text.push('\n')) + rest;
            &&& has_line(bytes)
            &&& trimmed_end(characters(first_line(bytes))) == trimmed_end(text)
            &&& after_line(bytes) == rest
        }),
{
    let line = encode_utf8(text.push('\n'));
    let bytes = line + rest;
    lemma_encoded_line(text);
    lemma_line_length(bytes, line.len() - 1);
    assert(first_line(bytes) =~= line);
    assert(after_line(bytes) =~= rest);
    encode_utf8_valid_utf8(text.push('\n'));
    encode_utf8_decode_utf8(text.push('\n'));
    assert(text.push('\n').drop_last() =~= text);
}

proof fn lemma_lines_are_read(draft: EventDraft, lines: Seq<Seq<char>>, rest: Seq<u8>)
    requires
        forall|i: int| 0 <= i < lines.len() ==> is_field_line(#[trigger] lines[i]),
    ensures
        read_lines(EventState { buffer: line_bytes(lines) + rest, draft }) == read_lines(
            EventState { buffer: rest, draft: with_lines(draft, lines) },
        ),
    decreases lines.len(),
{
    if lines.len() == 0 {
        assert(line_bytes(lines) + rest =~= rest);
    } else {
        let later = lines.skip(1);
        assert(is_field_line(lines[0]));
        assert forall|i: int| 0 <= i < later.len() implies is_field_line(#[trigger] later[i]) by {
            assert(later[i] == lines[i + 1]);
        }
        lemma_line_is_read(lines[0], line_bytes(later) + rest);
        assert(line_bytes(lines) + rest =~= encode_utf8(lines[0].push('\n')) + (line_bytes(later)
            + rest));
        lemma_lines_are_read(draft.with_line(trimmed_end(lines[0])), later, rest);
    }
}

proof fn lemma_with_lines_joined(draft: EventDraft, first: Seq<Seq<char>>, second: Seq<Seq<char>>)
    ensures
        with_lines(draft, first + second) == with_lines(with_lines(draft, first), second),
    decreases first.len(),
{
    if first.len() == 0 {
        assert(first + second =~= second);
    } else {
        assert((first + second).skip(1) =~= first.skip(1) + second);
        lemma_with_lines_joined(draft.with_line(trimmed_end(first[0])), first.skip(1), second);
    }
}

proof fn lemma_trimmed_end_shrinks(s: Seq<char>)
    ensures
        trimmed_end(s).len() <= s.len(),
    decreases s.len(),
{
    if s.len() > 0 && is_white_space(s.last()) {
        lemma_trimmed_end_shrinks(s.drop_last());
    }
}

/// What trimming leaves of a field line: the name, and a space and the value if
/// there is one.
proof fn lemma_field_line(name: Seq<char>, value: Seq<char>)
    requires
        name.len() > 0,
        !is_white_space(name.last()),
        plain(value),
    ensures
        ({
            let line = trimmed_end(name + seq![' '] + value);
            &&& name.is_prefix_of(line)
            &&& line.len() > 0
            &&& trimmed_start(line.skip(name.len() as int)) == value
        }),
{
    let full = name + seq![' '] + value;
    let line = trimmed_end(full);
    if value.len() == 0 {
        assert(full.drop_last() =~= name);
        assert(line == name) by {
            reveal_with_fuel(trimmed_end, 3);
        }
        assert(line.skip(name.len() as int) =~= value);
    } else {
        if is_white_space(value.last()) {
            lemma_trimmed_end_shrinks(value.drop_last());
        }
        assert(full.last() == value.last());
        assert(line == full);
        assert(line.skip(name.len() as int).skip(1) =~= value);
        assert(line.skip(name.len() as int)[0] == ' ');
    }
    assert(line.subrange(0, name.len() as int) =~= name);
}

proof fn lemma_data_lines(draft: EventDraft, values: Seq<Seq<char>>)
    requires
        forall|i: int| 0 <= i < values.len() ==> plain(#[trigger] values[i]),
    ensures
        with_lines(draft, values.map_values(|line: Seq<char>| "data: "@ + line)) == (EventDraft {
            data_lines: draft.data_lines + values,
            ..draft
        }),
    decreases values.len(),
{
    let lines = values.map_values(|line: Seq<char>| "data: "@ + line);
    if values.len() == 0 {
        assert(draft.data_lines + values =~= draft.data_lines);
    } else {
        let later = values.skip(1);
        assert forall|i: int| 0 <= i < later.len() implies plain(#[trigger] later[i]) by {
            assert(later[i] == values[i + 1]);
        }
        assert(plain(values[0]));
        reveal_strlit("data: ");
        reveal_strlit("data:");
        assert("data: "@ =~= "data:"@ + seq![' ']);
        lemma_field_line("data:"@, values[0]);
        assert(lines[0] == "data: "@ + values[0]);
        let next = draft.with_line(trimmed_end(lines[0]));
        assert(next.data_lines == draft.data_lines.push(values[0]));
        lemma_data_lines(next, later);
        assert(lines.skip(1) =~= later.map_values(|line: Seq<char>| "data: "@ + line));
        assert(draft.data_lines.push(values[0]) + later =~= draft.data_lines + values);
    }
}

proof fn lemma_named_lines(draft: EventDraft, value: Seq<char>)
    requires
        plain(value),
    ensures
        with_lines(draft, seq!["event: "@ + value]) == (EventDraft {
            event_type: Some(value),
            ..draft
        }),
        with_lines(draft, seq!["id: "@ + value]) == (EventDraft { id: Some(value), ..draft }),
        is_field_line("event: "@ + value),
        is_field_line("id: "@ + value),
        is_field_line("data: "@ + value),
{
    reveal_strlit("data: ");
    reveal_strlit("data:");
    reveal_strlit("event: ");
    reveal_strlit("event:");
    reveal_strlit("id: ");
    reveal_strlit("id:");
    assert("data: "@ =~= "data:"@ + seq![' ']);
    assert("event: "@ =~= "event:"@ + seq![' ']);
    assert("id: "@ =~= "id:"@ + seq![' ']);
    lemma_field_line("data:"@, value);
    lemma_field_line("event:"@, value);
    lemma_field_line("id:"@, value);
    reveal_with_fuel(with_lines, 2);
    let event_line = trimmed_end("event: "@ + value);
    let id_line = trimmed_end("id: "@ + value);
    assert(event_line[0] == "event:"@[0]);
    assert(id_line[0] == "id:"@[0]);
    assert(!"data:"@.is_prefix_of(event_line)) by {
        if "data:"@.is_prefix_of(event_line) {
            assert("data:"@[0] == event_line.subrange(0, 5)[0]);
        }
    }
    assert(!"data:"@.is_prefix_of(id_line)) by {
        if "data:"@.is_prefix_of(id_line) {
            assert("data:"@[0] == id_line.subrange(0, 5)[0]);
        }
    }
    assert(!"event:"@.is_prefix_of(id_line)) by {
        if "event:"@.is_prefix_of(id_line) {
            assert("event:"@[0] == id_line.subrange(0, 6)[0]);
        }
    }
    lemma_no_line_feed("event: "@, value);
    lemma_no_line_feed("id: "@, value);
    lemma_no_line_feed("data: "@, value);
}

proof fn lemma_no_line_feed(name: Seq<char>, value: Seq<char>)
    requires
        forall|i: int| 0 <= i < name.len() ==> name[i] != '\n',
        !value.contains('\n'),
    ensures
        !(name + value).contains('\n'),
{
    let s = name + value;
    if s.contains('\n') {
        let i = choose|i: int| 0 <= i < s.len() && s[i] == '\n';
        if i >= name.len() {
            assert(value[i - name.len()] == '\n');
        }
    }
}

proof fn lemma_fields(draft: EventDraft)
    requires
        plain_draft(draft),
    ensures
        with_lines(EventDraft::blank(), field_lines(draft)) == draft,
        forall|i: int|
            0 <= i < field_lines(draft).len() ==> is_field_line(#[trigger] field_lines(draft)[i]),
{
    let event_type = match draft.event_type {
        Some(text) => seq!["event: "@ + text],
        None => Seq::empty(),
    };
    let data = draft.data_lines.map_values(|line: Seq<char>| "data: "@ + line);
    let id = match draft.id {
        Some(text) => seq!["id: "@ + text],
        None => Seq::empty(),
    };
    let blank = EventDraft::blank();
    let lines = field_lines(draft);
    lemma_with_lines_joined(blank, event_type + data, id);
    lemma_with_lines_joined(blank, event_type, data);
    if let Some(text) = draft.event_type {
        lemma_named_lines(blank, text);
    }
    let first = with_lines(blank, event_type);
    assert(first == EventDraft { event_type: draft.event_type, ..blank });
    lemma_data_lines(first, draft.data_lines);
    assert(first.data_lines + draft.data_lines =~= draft.data_lines);
    let second = with_lines(first, data);
    if let Some(text) = draft.id {
        lemma_named_lines(second, text);
    }
    assert forall|i: int| 0 <= i < lines.len() implies is_field_line(#[trigger] lines[i]) by {
        let k = i - event_type.len();
        if 0 <= k < data.len() {
            assert(lines[i] == "data: "@ + draft.data_lines[k]);
            lemma_named_lines(blank, draft.data_lines[k]);
        }
    }
}

/// An event is read back as the server wrote it, and exactly its own bytes are
/// consumed.
pub proof fn event_is_read_back(draft: EventDraft, rest: Seq<u8>)
    requires
        plain_draft(draft),
        draft.event() is Some,
    ensures
        read_lines(
            EventState { buffer: event_bytes(draft) + rest, draft: EventDraft::blank() },
        ) == (EventState { buffer: rest, draft: EventDraft::blank() }, draft.event()),
{
    let empty = Seq::<char>::empty();
    let end = encode_utf8(seq!['\n']) + rest;
    lemma_fields(draft);
    lemma_lines_are_read(EventDraft::blank(), field_lines(draft), end);
    assert(event_bytes(draft) + rest =~= line_bytes(field_lines(draft)) + end);
    assert(empty.push('\n') =~= seq!['\n']);
    lemma_line_is_read(empty, rest);
}

/// A body of events is read back event by event.
pub proof fn events_are_read_back(drafts: Seq<EventDraft>)
    requires
        all_plain_events(drafts),
    ensures
        all_events(with_more(fresh(), events_bytes(drafts))) == contents(drafts),
    decreases drafts.len(),
{
    let state = with_more(fresh(), events_bytes(drafts));
    let events = contents(drafts);
    if drafts.len() == 0 {
        assert(state.buffer =~= Seq::empty());
        assert(all_events(state) =~= events);
    } else {
        let later = drafts.skip(1);
        assert(all_plain_events(later)) by {
            assert forall|i: int| 0 <= i < later.len() implies plain_draft(#[trigger] later[i])
                && later[i].event() is Some by {
                assert(later[i] == drafts[i + 1]);
            }
        }
        assert(plain_draft(drafts[0]));
        event_is_read_back(drafts[0], events_bytes(later));
        events_are_read_back(later);
        assert(state.buffer =~= event_bytes(drafts[0]) + events_bytes(later));
        assert(with_more(fresh(), events_bytes(later)).buffer =~= events_bytes(later));
        assert(seq![events[0]] + contents(later) =~= events);
    }
}

/// A caller gets exactly the events that a server has written, however the transport
/// cuts them into chunks.
pub proof fn events_sent_are_received(drafts: Seq<EventDraft>, chunks: Seq<Seq<u8>>)
    requires
        all_plain_events(drafts),
        joined(chunks) == events_bytes(drafts),
    ensures
        read_events(fresh(), StreamInput::Called, chunks).events == contents(drafts),
{
    every_event_is_delivered(chunks);
    events_are_read_back(drafts);
}

} // verus!
