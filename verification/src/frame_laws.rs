//! What holds of a stream of frames that is cut short or refused, and of its errors.
use vstd::prelude::*;

use crate::frame::{
    chunk_boundaries_do_not_matter, frame_bytes, frame_is_read_back, frame_outcome, frame_step,
    front_frame, length_bytes, oversized_frame_is_refused, read_frames, stream_bytes,
    stream_frames,
    FrameError, FrameOutcome, FrameReading, HEADER_SIZE, MAX_FRAME_SIZE,
};
use crate::stream::{joined, StreamEvent, StreamInput, StreamStep};
use crate::text::{decimal, decimal_reads_back, writes};

verus! {

proof fn lemma_frames_before(payloads: Seq<Seq<u8>>, rest: Seq<u8>)
    requires
        forall|i: int| 0 <= i < payloads.len() ==> payloads[i].len() <= MAX_FRAME_SIZE,
    ensures
        stream_frames(stream_bytes(payloads) + rest) == (FrameReading {
            frames: payloads + stream_frames(rest).frames,
            error: stream_frames(rest).error,
        }),
    decreases payloads.len(),
{
    if payloads.len() == 0 {
        assert(stream_bytes(payloads) + rest =~= rest);
        assert(payloads + stream_frames(rest).frames =~= stream_frames(rest).frames);
    } else {
        let later = payloads.skip(1);
        assert forall|i: int| 0 <= i < later.len() implies later[i].len() <= MAX_FRAME_SIZE by {
            assert(later[i] == payloads[i + 1]);
        }
        let behind = stream_bytes(later) + rest;
        frame_is_read_back(payloads[0], behind);
        assert(stream_bytes(payloads) + rest =~= frame_bytes(payloads[0]) + behind);
        lemma_frames_before(later, rest);
        assert(seq![payloads[0]] + (later + stream_frames(rest).frames) =~= payloads
            + stream_frames(rest).frames);
    }
}

/// A frame of which only a part has arrived is not read.
pub proof fn a_part_of_a_frame_is_kept(payload: Seq<u8>, n: int)
    requires
        payload.len() <= MAX_FRAME_SIZE,
        0 <= n < HEADER_SIZE + payload.len(),
    ensures
        front_frame(frame_bytes(payload).take(n)) is Incomplete,
{
    let whole = frame_bytes(payload);
    let part = whole.take(n);
    if n >= HEADER_SIZE {
        frame_is_read_back(payload, Seq::empty());
        assert(whole + Seq::<u8>::empty() =~= whole);
        assert(part[0] == whole[0]);
        assert(part[1] == whole[1]);
        assert(part[2] == whole[2]);
        assert(part[3] == whole[3]);
        assert(crate::frame::be_length(part) == crate::frame::be_length(whole));
    }
}

/// A stream that ends within a frame gives all frames before it, and then the error with
/// the number of bytes of the unfinished frame, however it is cut into chunks.
pub proof fn an_unfinished_frame_is_reported(
    payloads: Seq<Seq<u8>>,
    payload: Seq<u8>,
    n: int,
    chunks: Seq<Seq<u8>>,
)
    requires
        forall|i: int| 0 <= i < payloads.len() ==> payloads[i].len() <= MAX_FRAME_SIZE,
        payload.len() <= MAX_FRAME_SIZE,
        0 < n < HEADER_SIZE + payload.len(),
        joined(chunks) == stream_bytes(payloads) + frame_bytes(payload).take(n),
    ensures
        read_frames(Seq::empty(), StreamInput::Called, chunks) == (FrameReading {
            frames: payloads,
            error: Some(FrameError::Incomplete { pending: n as usize }),
        }),
{
    let rest = frame_bytes(payload).take(n);
    chunk_boundaries_do_not_matter(chunks);
    lemma_frames_before(payloads, rest);
    a_part_of_a_frame_is_kept(payload, n);
    assert(rest.len() == n);
    assert(payloads + Seq::<Seq<u8>>::empty() =~= payloads);
}

/// A stream with a length above the limit gives all frames before it, and then the error
/// with that length, however it is cut into chunks and whatever follows.
pub proof fn an_oversized_frame_is_reported(
    payloads: Seq<Seq<u8>>,
    len: nat,
    rest: Seq<u8>,
    chunks: Seq<Seq<u8>>,
)
    requires
        forall|i: int| 0 <= i < payloads.len() ==> payloads[i].len() <= MAX_FRAME_SIZE,
        MAX_FRAME_SIZE < len < 0x1_0000_0000,
        joined(chunks) == stream_bytes(payloads) + (length_bytes(len) + rest),
    ensures
        read_frames(Seq::empty(), StreamInput::Called, chunks) == (FrameReading {
            frames: payloads,
            error: Some(FrameError::TooLarge { len: len as usize }),
        }),
{
    let behind = length_bytes(len) + rest;
    chunk_boundaries_do_not_matter(chunks);
    lemma_frames_before(payloads, behind);
    oversized_frame_is_refused(len, rest);
    assert(payloads + Seq::<Seq<u8>>::empty() =~= payloads);
}

/// A stream that cannot be read on stays so: asking again gives the same error.
pub proof fn an_error_stays(buffer: Seq<u8>, input: StreamInput)
    requires
        frame_step(buffer, input).1 is Fail,
    ensures
        input is Ended ==> frame_step(frame_step(buffer, input).0, input) == frame_step(
            buffer,
            input,
        ),
        !(input is Ended) ==> frame_step(frame_step(buffer, input).0, StreamInput::Called)
            == frame_step(buffer, input),
{
}

/// A body that ends where a frame ends is at its end, and only such a one.
pub proof fn only_an_empty_buffer_ends_a_stream(buffer: Seq<u8>)
    ensures
        frame_step(buffer, StreamInput::Ended).1 is End <==> buffer.len() == 0,
        frame_step(buffer, StreamInput::Ended).0 == buffer,
        0 < buffer.len() <= usize::MAX ==> frame_step(buffer, StreamInput::Ended).1
            == FrameOutcome::Fail(FrameError::Incomplete { pending: buffer.len() as usize }),
{
}

/// An event of the transport hands on every byte that was received.
pub proof fn events_hand_on_what_was_received(event: StreamEvent<'_>)
    ensures
        match event {
            StreamEvent::Called => event@ is Called,
            StreamEvent::Chunk(bytes) => event@ matches StreamInput::Chunk(data) && data
                == bytes@,
            StreamEvent::Ended => event@ is Ended,
        },
{
}

/// The text of an error tells the length that was refused and the limit, or the number of
/// bytes that came of the last frame.
pub proof fn errors_tell_their_numbers(error: FrameError)
    ensures
        match error {
            FrameError::TooLarge { len } => {
                let start = "frame length "@;
                let end = " exceeds maximum allowed size 16777216"@;
                let text = error.message();
                &&& text.len() > start.len() + end.len()
                &&& text.take(start.len() as int) == start
                &&& text.skip(text.len() - end.len()) == end
                &&& writes(
                    text.subrange(start.len() as int, text.len() - end.len()),
                    len as int,
                )
            },
            FrameError::Incomplete { pending } => {
                let start = "stream ended with "@;
                let end = " bytes of incomplete frame data"@;
                let text = error.message();
                &&& text.len() > start.len() + end.len()
                &&& text.take(start.len() as int) == start
                &&& text.skip(text.len() - end.len()) == end
                &&& writes(
                    text.subrange(start.len() as int, text.len() - end.len()),
                    pending as int,
                )
            },
        },
{
    let text = error.message();
    match error {
        FrameError::TooLarge { len } => {
            let start = "frame length "@;
            let middle = " exceeds maximum allowed size "@;
            let end = " exceeds maximum allowed size 16777216"@;
            let digits = decimal(len as nat);
            reveal_strlit(" exceeds maximum allowed size ");
            reveal_strlit(" exceeds maximum allowed size 16777216");
            decimal_reads_back(len as nat);
            assert(decimal(MAX_FRAME_SIZE as nat) =~= seq!['1', '6', '7', '7', '7', '2', '1', '6'])
                by {
                reveal_with_fuel(decimal, 8);
            }
            assert(middle + decimal(MAX_FRAME_SIZE as nat) =~= end);
            assert(text =~= start + digits + end);
            assert(text.take(start.len() as int) =~= start);
            assert(text.skip(text.len() - end.len()) =~= end);
            assert(text.subrange(start.len() as int, text.len() - end.len()) =~= digits);
        },
        FrameError::Incomplete { pending } => {
            let start = "stream ended with "@;
            let end = " bytes of incomplete frame data"@;
            let digits = decimal(pending as nat);
            decimal_reads_back(pending as nat);
            assert(text.take(start.len() as int) =~= start);
            assert(text.skip(text.len() - end.len()) =~= end);
            assert(text.subrange(start.len() as int, text.len() - end.len()) =~= digits);
        },
    }
}

/// A frame that is handed out holds every byte of its payload, and an error is handed on
/// as it is.
pub proof fn a_frame_is_handed_out_whole(frame: Vec<u8>, error: FrameError)
    ensures
        frame_outcome(Ok(StreamStep::Return(Some(frame)))) == FrameOutcome::Frame(frame@),
        frame_outcome(Ok(StreamStep::Return(None))) is End,
        frame_outcome(Ok(StreamStep::Receive)) is Receive,
        frame_outcome(Err(error)) == FrameOutcome::Fail(error),
{
}

} // verus!
