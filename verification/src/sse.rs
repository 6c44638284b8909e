//! Server-sent events: lines of text that add up to events.
use vstd::prelude::*;
use vstd::utf8::{decode_utf8, valid_utf8};

use crate::outside::{bytes_content, bytes_copy, from_utf8_lossy, lossy_chars, strip_prefix};
use crate::stream::{StreamEvent, StreamInput, StreamStep};
use crate::text::{
    ascii_end, ascii_text, before_ascii_end, optional_text, trimmed, trimmed_end, trimmed_start,
};

verus! {

/// The byte that ends a line.
pub const NEWLINE: u8 = 10;

/// One event of a stream.
#[derive(Debug)]
pub struct SseEvent {
    pub event_type: Option<String>,
    pub data: String,
    pub id: Option<String>,
}

/// The text of an event.
#[verifier::ext_equal]
pub struct EventContent {
    pub event_type: Option<Seq<char>>,
    pub data: Seq<char>,
    pub id: Option<Seq<char>>,
}

impl View for SseEvent {
    type V = EventContent;

    open spec fn view(&self) -> EventContent {
        EventContent {
            event_type: optional_text(self.event_type),
            data: self.data@,
            id: optional_text(self.id),
        }
    }
}

/// What the lines since the last event have set.
#[verifier::ext_equal]
pub struct EventDraft {
    pub event_type: Option<Seq<char>>,
    pub data_lines: Seq<Seq<char>>,
    pub id: Option<Seq<char>>,
}

/// `lines` with a line feed between each two of them.
pub open spec fn with_line_feeds(lines: Seq<Seq<char>>) -> Seq<char>
    decreases lines.len(),
{
    if lines.len() == 0 {
        Seq::empty()
    } else if lines.len() == 1 {
        lines[0]
    } else {
        with_line_feeds(lines.drop_last()) + "\n"@ + lines.last()
    }
}

impl EventDraft {
    /// Nothing has been set.
    pub open spec fn blank() -> EventDraft {
        EventDraft { event_type: None, data_lines: Seq::empty(), id: None }
    }

    /// The draft behind one more line. `data:` adds a line of data, `event:` and `id:`
    /// replace what was set before, and any other line changes nothing.
    pub open spec fn with_line(self, line: Seq<char>) -> EventDraft {
        if "data:"@.is_prefix_of(line) {
            EventDraft {
                data_lines: self.data_lines.push(trimmed_start(line.skip("data:"@.len() as int))),
                ..self
            }
        } else if "event:"@.is_prefix_of(line) {
            EventDraft {
                event_type: Some(trimmed(line.skip("event:"@.len() as int))),
                ..self
            }
        } else if "id:"@.is_prefix_of(line) {
            EventDraft { id: Some(trimmed(line.skip("id:"@.len() as int))), ..self }
        } else {
            self
        }
    }

    /// The draft behind a line of the stream, and the event that the line completes. A
    /// line without text completes an event, if anything has been set since the last
    /// one; white space at the end of a line is not text.
    pub open spec fn with_text(self, text: Seq<char>) -> (EventDraft, Option<EventContent>) {
        let line = trimmed_end(text);
        if line.len() > 0 {
            (self.with_line(line), None)
        } else {
            match self.event() {
                Some(content) => (EventDraft::blank(), Some(content)),
                None => (self, None),
            }
        }
    }

    /// The event that the draft amounts to; none if nothing has been set.
    pub open spec fn event(self) -> Option<EventContent> {
        if self.data_lines.len() == 0 && self.event_type is None && self.id is None {
            None
        } else {
            Some(
                EventContent {
                    event_type: self.event_type,
                    data: with_line_feeds(self.data_lines),
                    id: self.id,
                },
            )
        }
    }
}

/// Collects the lines of one event.
#[derive(Debug)]
pub struct SseEventBuilder {
    event_type: Option<String>,
    data_lines: Vec<String>,
    id: Option<String>,
}

impl View for SseEventBuilder {
    type V = EventDraft;

    closed spec fn view(&self) -> EventDraft {
        EventDraft {
            event_type: optional_text(self.event_type),
            data_lines: Seq::new(self.data_lines@.len(), |i: int| self.data_lines@[i]@),
            id: optional_text(self.id),
        }
    }
}

impl Default for SseEventBuilder {
    fn default() -> (builder: SseEventBuilder)
        ensures
            builder@ == EventDraft::blank(),
    {
        SseEventBuilder { event_type: None, data_lines: Vec::new(), id: None }
    }
}

fn join_lines(lines: &Vec<String>) -> (text: String)
    ensures
        text@ == with_line_feeds(Seq::new(lines@.len(), |i: int| lines@[i]@)),
{
    let ghost all = Seq::new(lines@.len(), |i: int| lines@[i]@);
    let mut text = String::new();
    let mut i: usize = 0;
    assert(all.take(0) =~= Seq::empty());
    while i < lines.len()
        invariant
            i <= lines.len(),
            all == Seq::new(lines@.len(), |i: int| lines@[i]@),
            text@ == with_line_feeds(all.take(i as int)),
        decreases lines.len() - i,
    {
        if i > 0 {
            text.append("\n");
        }
        text.append(lines[i].as_str());
        assert(all.take(i + 1).drop_last() =~= all.take(i as int));
        assert(all.take(i + 1).last() == lines@[i as int]@);
        i = i + 1;
    }
    assert(all.take(lines@.len() as int) =~= all);
    text
}

impl SseEventBuilder {
    /// Takes in one line, without its line end.
    pub fn process_line(&mut self, line: &str)
        ensures
            final(self)@ == old(self)@.with_line(line@),
    {
        if let Some(rest) = strip_prefix(line, "data:") {
            assert(line@.skip("data:"@.len() as int) =~= rest@);
            assert(line@.subrange(0, "data:"@.len() as int) =~= "data:"@);
            self.data_lines.push(rest.trim_start().to_owned());
            assert(self@.data_lines =~= old(self)@.data_lines.push(trimmed_start(rest@)));
        } else if let Some(rest) = strip_prefix(line, "event:") {
            assert(line@.skip("event:"@.len() as int) =~= rest@);
            assert(line@.subrange(0, "event:"@.len() as int) =~= "event:"@);
            self.event_type = Some(rest.trim().to_owned());
        } else if let Some(rest) = strip_prefix(line, "id:") {
            assert(line@.skip("id:"@.len() as int) =~= rest@);
            assert(line@.subrange(0, "id:"@.len() as int) =~= "id:"@);
            self.id = Some(rest.trim().to_owned());
        }
    }

    /// The event that the lines so far amount to; `None` if they set nothing.
    pub fn build_event(&self) -> (event: Option<SseEvent>)
        ensures
            match event {
                Some(e) => self@.event() == Some(e@),
                None => self@.event() is None,
            },
    {
        if self.data_lines.is_empty() && self.event_type.is_none() && self.id.is_none() {
            return None;
        }
        Some(
            SseEvent {
                event_type: self.event_type.clone(),
                data: join_lines(&self.data_lines),
                id: self.id.clone(),
            },
        )
    }

    /// Forgets all lines.
    pub fn reset(&mut self)
        ensures
            final(self)@ == EventDraft::blank(),
    {
        self.event_type = None;
        self.data_lines.clear();
        self.id = None;
        assert(self@.data_lines =~= EventDraft::blank().data_lines);
    }

    /// Takes in one line of the stream and gives out the event that it completes.
    pub fn take_text(&mut self, text: &str) -> (event: Option<SseEvent>)
        ensures
            final(self)@ == old(self)@.with_text(text@).0,
            match event {
                Some(e) => old(self)@.with_text(text@).1 == Some(e@),
                None => old(self)@.with_text(text@).1 is None,
            },
    {
        let line = text.trim_end();
        if line.is_empty() {
            match self.build_event() {
                Some(event) => {
                    self.reset();
                    Some(event)
                },
                None => None,
            }
        } else {
            self.process_line(line);
            None
        }
    }
}

/// The number of bytes before the first line feed of `bytes`; all of them if there
/// is none.
pub open spec fn line_length(bytes: Seq<u8>) -> nat
    decreases bytes.len(),
{
    if bytes.len() == 0 || bytes[0] == NEWLINE {
        0
    } else {
        1 + line_length(bytes.skip(1))
    }
}

/// Whether `bytes` hold a line with its end.
pub open spec fn has_line(bytes: Seq<u8>) -> bool {
    line_length(bytes) < bytes.len()
}

/// The first line of `bytes`, with its end.
pub open spec fn first_line(bytes: Seq<u8>) -> Seq<u8> {
    bytes.take(line_length(bytes) as int + 1)
}

/// What follows the first line of `bytes`.
pub open spec fn after_line(bytes: Seq<u8>) -> Seq<u8> {
    bytes.skip(line_length(bytes) as int + 1)
}

/// The characters of `bytes`, with replacement characters for what is not UTF-8.
pub open spec fn characters(bytes: Seq<u8>) -> Seq<char> {
    if valid_utf8(bytes) {
        decode_utf8(bytes)
    } else {
        lossy_chars(before_ascii_end(bytes)) + ascii_text(ascii_end(bytes))
    }
}

/// What a reader of events holds: the bytes that it has not looked at, and what the
/// lines before them have set.
#[verifier::ext_equal]
pub struct EventState {
    pub buffer: Seq<u8>,
    pub draft: EventDraft,
}

/// Reads whole lines off the front of the buffer until one of them completes an
/// event or none is left.
pub open spec fn read_lines(state: EventState) -> (EventState, Option<EventContent>)
    decreases state.buffer.len(),
{
    if !has_line(state.buffer) {
        (state, None)
    } else {
        let (draft, event) = state.draft.with_text(characters(first_line(state.buffer)));
        let next = EventState { buffer: after_line(state.buffer), draft };
        if event is Some {
            (next, event)
        } else {
            read_lines(next)
        }
    }
}

/// What a reader of events comes to.
pub enum EventOutcome {
    Receive,
    Event(EventContent),
    End,
}

/// The outcome that `step` stands for.
pub open spec fn event_outcome(step: StreamStep<SseEvent>) -> EventOutcome {
    match step {
        StreamStep::Receive => EventOutcome::Receive,
        StreamStep::Return(Some(event)) => EventOutcome::Event(event@),
        StreamStep::Return(None) => EventOutcome::End,
    }
}

/// What a reader of events that holds `state` comes to before it needs more bytes.
pub open spec fn take_event(state: EventState) -> (EventState, EventOutcome) {
    let (held, event) = read_lines(state);
    match event {
        Some(content) => (held, EventOutcome::Event(content)),
        None => (held, EventOutcome::Receive),
    }
}

/// One turn of a reader of events. It reads the lines that it holds before it asks for
/// more; at the end of the body it gives out what the last lines have set.
pub open spec fn event_step(state: EventState, input: StreamInput) -> (EventState, EventOutcome) {
    match input {
        StreamInput::Called => take_event(state),
        StreamInput::Chunk(bytes) => take_event(
            EventState { buffer: state.buffer + bytes, ..state },
        ),
        StreamInput::Ended => match state.draft.event() {
            Some(content) => (
                EventState { draft: EventDraft::blank(), ..state },
                EventOutcome::Event(content),
            ),
            None => (state, EventOutcome::End),
        },
    }
}

/// What a reader of the raw body comes to.
pub enum RawOutcome {
    Receive,
    Chunk(Seq<u8>),
    End,
}

/// The outcome that `step` stands for.
pub open spec fn raw_outcome(step: StreamStep<bytes::Bytes>) -> RawOutcome {
    match step {
        StreamStep::Receive => RawOutcome::Receive,
        StreamStep::Return(Some(chunk)) => RawOutcome::Chunk(bytes_content(chunk)),
        StreamStep::Return(None) => RawOutcome::End,
    }
}

/// One turn of a reader of the raw body: it hands on what arrives.
pub open spec fn raw_step(input: StreamInput) -> RawOutcome {
    match input {
        StreamInput::Called => RawOutcome::Receive,
        StreamInput::Chunk(bytes) => RawOutcome::Chunk(bytes),
        StreamInput::Ended => RawOutcome::End,
    }
}

/// A stream of server-sent events.
#[derive(Debug)]
pub struct SseStream {
    buffer: Vec<u8>,
    current_event: SseEventBuilder,
    encoding: Option<String>,
}

impl View for SseStream {
    type V = EventState;

    closed spec fn view(&self) -> EventState {
        EventState { buffer: self.buffer@, draft: self.current_event@ }
    }
}

/// The first line feed ends the line.
pub proof fn lemma_line_length(bytes: Seq<u8>, n: int)
    requires
        0 <= n <= bytes.len(),
        forall|j: int| 0 <= j < n ==> bytes[j] != NEWLINE,
        n < bytes.len() ==> bytes[n] == NEWLINE,
    ensures
        line_length(bytes) == n,
    decreases n,
{
    if n > 0 {
        lemma_line_length(bytes.skip(1), n - 1);
    }
}

/// Takes the first line off the buffer, if it is there with its end.
fn take_line(buffer: &mut Vec<u8>) -> (line: Option<String>)
    ensures
        if has_line(old(buffer)@) {
            line matches Some(text) && text@ == characters(first_line(old(buffer)@))
                && final(buffer)@ == after_line(old(buffer)@)
        } else {
            line is None && final(buffer)@ == old(buffer)@
        },
{
    let mut n: usize = 0;
    while n < buffer.len() && buffer[n] != NEWLINE
        invariant
            n <= buffer@.len(),
            forall|j: int| 0 <= j < n ==> buffer@[j] != NEWLINE,
        decreases buffer@.len() - n,
    {
        n = n + 1;
    }
    proof {
        lemma_line_length(buffer@, n as int);
    }
    if n == buffer.len() {
        return None;
    }
    let rest = buffer.split_off(n + 1);
    let text = from_utf8_lossy(buffer.as_slice());
    *buffer = rest;
    proof {
        assert(buffer@ =~= after_line(old(buffer)@));
        assert(old(buffer)@.subrange(0, n + 1) =~= first_line(old(buffer)@));
    }
    Some(text)
}

impl SseStream {
    /// The content coding that the server announced for the body.
    pub closed spec fn coding(self) -> Option<Seq<char>> {
        optional_text(self.encoding)
    }

    /// A stream of which nothing has been received.
    pub fn new(encoding: Option<String>) -> (stream: SseStream)
        ensures
            stream@ == (EventState { buffer: Seq::empty(), draft: EventDraft::blank() }),
            stream.coding() == optional_text(encoding),
    {
        SseStream { buffer: Vec::new(), current_event: SseEventBuilder::default(), encoding }
    }

    /// One turn towards the next event, or `None` if the stream ended.
    ///
    /// Start with [`StreamEvent::Called`]; answer each [`StreamStep::Receive`] with
    /// what the transport delivered.
    pub fn next_event(&mut self, event: StreamEvent<'_>) -> (step: StreamStep<SseEvent>)
        ensures
            (final(self)@, event_outcome(step)) == event_step(old(self)@, event@),
            final(self).coding() == old(self).coding(),
    {
        match event {
            StreamEvent::Called => {},
            StreamEvent::Chunk(bytes) => {
                self.buffer.extend_from_slice(bytes);
                assert(self.buffer@ =~= old(self)@.buffer + bytes@);
            },
            StreamEvent::Ended => {
                return match self.current_event.build_event() {
                    Some(found) => {
                        self.current_event.reset();
                        StreamStep::Return(Some(found))
                    },
                    None => StreamStep::Return(None),
                };
            },
        }
        match self.read_event() {
            Some(found) => StreamStep::Return(Some(found)),
            None => StreamStep::Receive,
        }
    }

    fn read_event(&mut self) -> (event: Option<SseEvent>)
        ensures
            final(self)@ == read_lines(old(self)@).0,
            final(self).coding() == old(self).coding(),
            match event {
                Some(e) => read_lines(old(self)@).1 == Some(e@),
                None => read_lines(old(self)@).1 is None,
            },
    {
        loop
            invariant
                read_lines(self@) == read_lines(old(self)@),
                self.coding() == old(self).coding(),
            decreases self.buffer@.len(),
        {
            match take_line(&mut self.buffer) {
                None => {
                    return None;
                },
                Some(line) => {
                    if let Some(event) = self.current_event.take_text(line.as_str()) {
                        return Some(event);
                    }
                },
            }
        }
    }

    /// One turn towards the next part of the body as it was received, or `None` if the
    /// stream ended. It is read past the events: what they hold stays as it is.
    pub fn next_raw_chunk(&self, event: StreamEvent<'_>) -> (step: StreamStep<bytes::Bytes>)
        ensures
            match event@ {
                StreamInput::Called => step is Receive,
                StreamInput::Chunk(bytes) => step matches StreamStep::Return(Some(chunk))
                    && bytes_content(chunk) == bytes,
                StreamInput::Ended => step matches StreamStep::Return(None),
            },
            raw_outcome(step) == raw_step(event@),
    {
        match event {
            StreamEvent::Called => StreamStep::Receive,
            StreamEvent::Chunk(bytes) => StreamStep::Return(Some(bytes_copy(bytes))),
            StreamEvent::Ended => StreamStep::Return(None),
        }
    }

    /// Whether the server announced a content coding.
    pub fn is_compressed(&self) -> (compressed: bool)
        ensures
            compressed == (self.coding() is Some),
    {
        self.encoding.is_some()
    }

    /// The content coding that the server announced.
    pub fn encoding(&self) -> (encoding: Option<&str>)
        ensures
            match encoding {
                Some(text) => self.coding() == Some(text@),
                None => self.coding() is None,
            },
    {
        match &self.encoding {
            Some(text) => Some(text.as_str()),
            None => None,
        }
    }
}

} // verus!
