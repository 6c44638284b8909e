//! Length-prefixed binary frames: `[4-byte big-endian length][payload]`.
use vstd::prelude::*;
use vstd::slice::{slice_subrange, slice_to_vec};

use crate::stream::{joined, StreamEvent, StreamInput, StreamStep};
use crate::text::{decimal, push_decimal};

verus! {

/// Maximum allowed frame payload size (16 MiB).
pub const MAX_FRAME_SIZE: usize = 16777216;

/// The number of bytes of a frame's length field.
pub const HEADER_SIZE: usize = 4;

/// The number that the first four bytes of `bytes` hold, most significant first.
pub open spec fn be_length(bytes: Seq<u8>) -> nat
    recommends
        bytes.len() >= 4,
{
    (bytes[0] * 0x100_0000 + bytes[1] * 0x1_0000 + bytes[2] * 0x100 + bytes[3]) as nat
}

/// The four bytes that hold `n`, most significant first.
pub open spec fn length_bytes(n: nat) -> Seq<u8>
    recommends
        n < 0x1_0000_0000,
{
    seq![
        (n / 0x100_0000 % 0x100) as u8,
        (n / 0x1_0000 % 0x100) as u8,
        (n / 0x100 % 0x100) as u8,
        (n % 0x100) as u8,
    ]
}

/// The bytes of one frame.
pub open spec fn frame_bytes(payload: Seq<u8>) -> Seq<u8> {
    length_bytes(payload.len()) + payload
}

/// What the front of a buffer holds.
pub enum FrontFrame {
    /// Not yet a whole frame.
    Incomplete,
    /// A length field above [`MAX_FRAME_SIZE`].
    Oversized { len: nat },
    /// A whole frame, and the bytes behind it.
    Complete { payload: Seq<u8>, rest: Seq<u8> },
}

/// Reads the front of `buffer` as a frame.
pub open spec fn front_frame(buffer: Seq<u8>) -> FrontFrame {
    if buffer.len() < HEADER_SIZE {
        FrontFrame::Incomplete
    } else if be_length(buffer) > MAX_FRAME_SIZE {
        FrontFrame::Oversized { len: be_length(buffer) }
    } else if buffer.len() < HEADER_SIZE + be_length(buffer) {
        FrontFrame::Incomplete
    } else {
        FrontFrame::Complete {
            payload: buffer.subrange(HEADER_SIZE as int, HEADER_SIZE + be_length(buffer)),
            rest: buffer.skip(HEADER_SIZE + be_length(buffer)),
        }
    }
}

/// Why a binary stream cannot be read on.
#[derive(Debug, Clone, Copy, PartialEq, Eq)]
pub enum FrameError {
    /// The length field of a frame is above [`MAX_FRAME_SIZE`].
    TooLarge { len: usize },
    /// The stream ended within a frame, with that many bytes of it received.
    Incomplete { pending: usize },
}

impl FrameError {
    /// The text of the error.
    pub open spec fn message(self) -> Seq<char> {
        match self {
            FrameError::TooLarge { len } => "frame length "@ + decimal(len as nat)
                + " exceeds maximum allowed size "@ + decimal(MAX_FRAME_SIZE as nat),
            FrameError::Incomplete { pending } => "stream ended with "@ + decimal(pending as nat)
                + " bytes of incomplete frame data"@,
        }
    }

    /// The text of the error.
    pub fn to_string(&self) -> (s: String)
        ensures
            s@ == self.message(),
    {
        let mut s = String::new();
        match self {
            FrameError::TooLarge { len } => {
                s.append("frame length ");
                push_decimal(&mut s, *len as u64);
                s.append(" exceeds maximum allowed size ");
                push_decimal(&mut s, MAX_FRAME_SIZE as u64);
            },
            FrameError::Incomplete { pending } => {
                s.append("stream ended with ");
                push_decimal(&mut s, *pending as u64);
                s.append(" bytes of incomplete frame data");
            },
        }
        s
    }
}

/// Tries to take a complete length-prefixed frame off the front of the buffer.
///
/// Returns `Ok(Some(payload))` and removes the consumed bytes, `Ok(None)` if the
/// buffer does not yet hold a complete frame, or `Err` if the advertised length
/// exceeds [`MAX_FRAME_SIZE`].
pub fn try_parse_frame(buffer: &mut Vec<u8>) -> (result: Result<Option<Vec<u8>>, FrameError>)
    ensures
        match front_frame(old(buffer)@) {
            FrontFrame::Incomplete => result == Ok::<Option<Vec<u8>>, FrameError>(None)
                && final(buffer)@ == old(buffer)@,
            FrontFrame::Oversized { len } => result matches Err(FrameError::TooLarge { len: l })
                && l == len && final(buffer)@ == old(buffer)@,
            FrontFrame::Complete { payload, rest } => result matches Ok(Some(frame)) && frame@
                == payload && final(buffer)@ == rest,
        },
{
    if buffer.len() < HEADER_SIZE {
        return Ok(None);
    }
    let len: usize = buffer[0] as usize * 0x100_0000 + buffer[1] as usize * 0x1_0000
        + buffer[2] as usize * 0x100 + buffer[3] as usize;
    if len > MAX_FRAME_SIZE {
        return Err(FrameError::TooLarge { len });
    }
    if buffer.len() < HEADER_SIZE + len {
        return Ok(None);
    }
    let rest = buffer.split_off(HEADER_SIZE + len);
    let frame = slice_to_vec(slice_subrange(buffer.as_slice(), HEADER_SIZE, HEADER_SIZE + len));
    *buffer = rest;
    proof {
        assert(frame@ == old(buffer)@.subrange(HEADER_SIZE as int, HEADER_SIZE + len as int));
        assert(buffer@ == old(buffer)@.skip(HEADER_SIZE + len as int));
    }
    Ok(Some(frame))
}

/// What a reader of binary frames comes to.
pub enum FrameOutcome {
    Receive,
    Frame(Seq<u8>),
    End,
    Fail(FrameError),
}

/// The outcome that `result` stands for.
pub open spec fn frame_outcome(
    result: Result<StreamStep<Vec<u8>>, FrameError>,
) -> FrameOutcome {
    match result {
        Ok(StreamStep::Receive) => FrameOutcome::Receive,
        Ok(StreamStep::Return(Some(frame))) => FrameOutcome::Frame(frame@),
        Ok(StreamStep::Return(None)) => FrameOutcome::End,
        Err(e) => FrameOutcome::Fail(e),
    }
}

/// Looks for a frame at the front of `buffer`: the bytes that stay, and the outcome.
pub open spec fn take_front(buffer: Seq<u8>) -> (Seq<u8>, FrameOutcome) {
    match front_frame(buffer) {
        FrontFrame::Incomplete => (buffer, FrameOutcome::Receive),
        FrontFrame::Oversized { len } => (
            buffer,
            FrameOutcome::Fail(FrameError::TooLarge { len: len as usize }),
        ),
        FrontFrame::Complete { payload, rest } => (rest, FrameOutcome::Frame(payload)),
    }
}

/// One turn of a reader that holds `buffer`: the bytes it holds afterwards, and
/// what it comes to.
pub open spec fn frame_step(buffer: Seq<u8>, input: StreamInput) -> (Seq<u8>, FrameOutcome) {
    match input {
        StreamInput::Called => take_front(buffer),
        StreamInput::Chunk(bytes) => take_front(buffer + bytes),
        StreamInput::Ended => (
            buffer,
            if buffer.len() == 0 {
                FrameOutcome::End
            } else {
                FrameOutcome::Fail(FrameError::Incomplete { pending: buffer.len() as usize })
            },
        ),
    }
}

/// Length-prefixed binary frame stream.
/// Each frame is `[4-byte big-endian length][payload]`.
#[derive(Debug)]
pub struct BinaryStream {
    buffer: Vec<u8>,
}

impl View for BinaryStream {
    type V = Seq<u8>;

    /// The bytes received and not yet handed out.
    closed spec fn view(&self) -> Seq<u8> {
        self.buffer@
    }
}

impl BinaryStream {
    /// A stream of which nothing has been received.
    pub fn new() -> (stream: BinaryStream)
        ensures
            stream@ == Seq::<u8>::empty(),
    {
        BinaryStream { buffer: Vec::new() }
    }

    /// One turn towards the next frame payload, or `None` if the stream ended.
    ///
    /// Start with [`StreamEvent::Called`]; answer each [`StreamStep::Receive`] with
    /// what the transport delivered.
    pub fn next_frame(&mut self, event: StreamEvent<'_>) -> (result: Result<
        StreamStep<Vec<u8>>,
        FrameError,
    >)
        ensures
            (final(self)@, frame_outcome(result)) == frame_step(old(self)@, event@),
    {
        match event {
            StreamEvent::Called => {},
            StreamEvent::Chunk(bytes) => {
                self.buffer.extend_from_slice(bytes);
                assert(self.buffer@ == old(self)@ + bytes@);
            },
            StreamEvent::Ended => {
                if self.buffer.is_empty() {
                    return Ok(StreamStep::Return(None));
                }
                return Err(FrameError::Incomplete { pending: self.buffer.len() });
            },
        }
        match try_parse_frame(&mut self.buffer) {
            Ok(Some(frame)) => Ok(StreamStep::Return(Some(frame))),
            Ok(None) => Ok(StreamStep::Receive),
            Err(e) => Err(e),
        }
    }
}

/// All that a caller gets out of a stream: the payloads in order, and how it ended,
/// with the end of the stream or with an error.
#[verifier::ext_equal]
pub struct FrameReading {
    pub frames: Seq<Seq<u8>>,
    pub error: Option<FrameError>,
}

/// What comes of asking for frames until there are no more: the reader holds
/// `buffer` and is handed `input`, then whenever it wants to receive the next of
/// `chunks`, and behind the last of them the end of the body.
pub open spec fn read_frames(
    buffer: Seq<u8>,
    input: StreamInput,
    chunks: Seq<Seq<u8>>,
) -> FrameReading
    decreases chunks.len(), buffer.len() + input.bytes().len(), input.rank(),
{
    let (held, outcome) = frame_step(buffer, input);
    match outcome {
        FrameOutcome::End => FrameReading { frames: Seq::empty(), error: None },
        FrameOutcome::Fail(e) => FrameReading { frames: Seq::empty(), error: Some(e) },
        FrameOutcome::Frame(payload) => {
            let later = read_frames(held, StreamInput::Called, chunks);
            FrameReading { frames: seq![payload] + later.frames, error: later.error }
        },
        FrameOutcome::Receive => if chunks.len() == 0 {
            read_frames(held, StreamInput::Ended, chunks)
        } else {
            read_frames(held, StreamInput::Chunk(chunks[0]), chunks.skip(1))
        },
    }
}

/// The frames that `bytes` hold, one behind the other, and the error for what is
/// left behind the last of them, if anything is.
pub open spec fn stream_frames(bytes: Seq<u8>) -> FrameReading
    decreases bytes.len(),
{
    match front_frame(bytes) {
        FrontFrame::Complete { payload, rest } => {
            let later = stream_frames(rest);
            FrameReading { frames: seq![payload] + later.frames, error: later.error }
        },
        FrontFrame::Oversized { len } => FrameReading {
            frames: Seq::empty(),
            error: Some(FrameError::TooLarge { len: len as usize }),
        },
        FrontFrame::Incomplete => FrameReading {
            frames: Seq::empty(),
            error: if bytes.len() == 0 {
                None
            } else {
                Some(FrameError::Incomplete { pending: bytes.len() as usize })
            },
        },
    }
}

/// The bytes of a stream that carries `payloads`.
pub open spec fn stream_bytes(payloads: Seq<Seq<u8>>) -> Seq<u8>
    decreases payloads.len(),
{
    if payloads.len() == 0 {
        Seq::empty()
    } else {
        frame_bytes(payloads[0]) + stream_bytes(payloads.skip(1))
    }
}

/// More bytes behind a buffer change neither a frame that it holds whole nor a
/// length that it refuses.
proof fn lemma_front_is_settled(buffer: Seq<u8>, more: Seq<u8>)
    ensures
        match front_frame(buffer) {
            FrontFrame::Incomplete => true,
            FrontFrame::Oversized { len } => front_frame(buffer + more)
                == (FrontFrame::Oversized { len }),
            FrontFrame::Complete { payload, rest } => front_frame(buffer + more)
                == (FrontFrame::Complete { payload, rest: rest + more }),
        },
{
    if buffer.len() >= HEADER_SIZE {
        assert(be_length(buffer + more) == be_length(buffer));
        let end = HEADER_SIZE + be_length(buffer);
        if end <= buffer.len() {
            assert((buffer + more).subrange(HEADER_SIZE as int, end) =~= buffer.subrange(
                HEADER_SIZE as int,
                end,
            ));
            assert((buffer + more).skip(end) =~= buffer.skip(end) + more);
        }
    }
}

proof fn lemma_reading(buffer: Seq<u8>, input: StreamInput, chunks: Seq<Seq<u8>>)
    requires
        !(input is Ended),
    ensures
        read_frames(buffer, input, chunks) == stream_frames(
            buffer + input.bytes() + joined(chunks),
        ),
    decreases chunks.len(), buffer.len() + input.bytes().len(),
{
    let front = buffer + input.bytes();
    assert(input is Called ==> front =~= buffer);
    lemma_front_is_settled(front, joined(chunks));
    match front_frame(front) {
        FrontFrame::Oversized { .. } => {},
        FrontFrame::Complete { payload, rest } => {
            lemma_reading(rest, StreamInput::Called, chunks);
            assert(rest + StreamInput::Called.bytes() =~= rest);
        },
        FrontFrame::Incomplete => {
            if chunks.len() == 0 {
                assert(front + joined(chunks) =~= front);
                reveal_with_fuel(read_frames, 2);
            } else {
                lemma_reading(front, StreamInput::Chunk(chunks[0]), chunks.skip(1));
                assert(front + joined(chunks) =~= front + chunks[0] + joined(chunks.skip(1)));
            }
        },
    }
}

/// However the transport cuts the body into chunks, a reader gets the frames of
/// the whole body, in order, and the error, if any, that its last bytes call for.
pub proof fn chunk_boundaries_do_not_matter(chunks: Seq<Seq<u8>>)
    ensures
        read_frames(Seq::empty(), StreamInput::Called, chunks) == stream_frames(joined(chunks)),
{
    lemma_reading(Seq::empty(), StreamInput::Called, chunks);
    assert(Seq::<u8>::empty() + StreamInput::Called.bytes() + joined(chunks) =~= joined(chunks));
}

/// A frame at the front of a buffer is read back as it was written, and exactly its
/// own bytes are consumed.
pub proof fn frame_is_read_back(payload: Seq<u8>, rest: Seq<u8>)
    requires
        payload.len() <= MAX_FRAME_SIZE,
    ensures
        front_frame(frame_bytes(payload) + rest) == (FrontFrame::Complete { payload, rest }),
{
    let buffer = frame_bytes(payload) + rest;
    let n = payload.len();
    assert(be_length(buffer) == n) by {
        assert(buffer[0] == length_bytes(n)[0]);
        assert(buffer[1] == length_bytes(n)[1]);
        assert(buffer[2] == length_bytes(n)[2]);
        assert(buffer[3] == length_bytes(n)[3]);
    }
    assert(buffer.subrange(HEADER_SIZE as int, HEADER_SIZE + n) =~= payload);
    assert(buffer.skip(HEADER_SIZE + n) =~= rest);
}

/// A payload above the limit is refused as soon as its length has arrived.
pub proof fn oversized_frame_is_refused(len: nat, rest: Seq<u8>)
    requires
        MAX_FRAME_SIZE < len < 0x1_0000_0000,
    ensures
        front_frame(length_bytes(len) + rest) == (FrontFrame::Oversized { len }),
{
    let buffer = length_bytes(len) + rest;
    assert(buffer[0] == length_bytes(len)[0]);
    assert(buffer[1] == length_bytes(len)[1]);
    assert(buffer[2] == length_bytes(len)[2]);
    assert(buffer[3] == length_bytes(len)[3]);
}

/// A stream of frames is read back payload by payload, up to a clean end.
pub proof fn stream_is_read_back(payloads: Seq<Seq<u8>>)
    requires
        forall|i: int| 0 <= i < payloads.len() ==> payloads[i].len() <= MAX_FRAME_SIZE,
    ensures
        stream_frames(stream_bytes(payloads)) == (FrameReading { frames: payloads, error: None }),
    decreases payloads.len(),
{
    if payloads.len() != 0 {
        let later = payloads.skip(1);
        assert forall|i: int| 0 <= i < later.len() implies later[i].len() <= MAX_FRAME_SIZE by {
            assert(later[i] == payloads[i + 1]);
        }
        frame_is_read_back(payloads[0], stream_bytes(later));
        stream_is_read_back(later);
        assert(seq![payloads[0]] + later =~= payloads);
    } else {
        assert(stream_frames(stream_bytes(payloads)).frames =~= payloads);
    }
}

/// A caller gets exactly the payloads that a server has written, however the
/// transport cuts their frames into chunks.
pub proof fn frames_sent_are_received(payloads: Seq<Seq<u8>>, chunks: Seq<Seq<u8>>)
    requires
        forall|i: int| 0 <= i < payloads.len() ==> payloads[i].len() <= MAX_FRAME_SIZE,
        joined(chunks) == stream_bytes(payloads),
    ensures
        read_frames(Seq::empty(), StreamInput::Called, chunks) == (FrameReading {
            frames: payloads,
            error: None,
        }),
{
    chunk_boundaries_do_not_matter(chunks);
    stream_is_read_back(payloads);
}

} // verus!
