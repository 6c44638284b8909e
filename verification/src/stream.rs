//! How a reader of a response body and the transport take turns.
use vstd::prelude::*;

verus! {

/// What has happened since the reader last asked for something.
pub enum StreamEvent<'a> {
    /// The reader was asked for the next item; nothing has been received for it yet.
    Called,
    /// The transport delivered these bytes.
    Chunk(&'a [u8]),
    /// The transport reported the end of the body.
    Ended,
}

/// The bytes behind a [`StreamEvent`].
pub enum StreamInput {
    Called,
    Chunk(Seq<u8>),
    Ended,
}

impl StreamInput {
    /// The bytes that have come in.
    pub open spec fn bytes(self) -> Seq<u8> {
        match self {
            StreamInput::Chunk(bytes) => bytes,
            _ => Seq::empty(),
        }
    }

    /// Zero once nothing can follow.
    pub open spec fn rank(self) -> nat {
        if self is Ended {
            0
        } else {
            1
        }
    }
}

impl<'a> View for StreamEvent<'a> {
    type V = StreamInput;

    open spec fn view(&self) -> StreamInput {
        match self {
            StreamEvent::Called => StreamInput::Called,
            StreamEvent::Chunk(bytes) => StreamInput::Chunk(bytes@),
            StreamEvent::Ended => StreamInput::Ended,
        }
    }
}

/// What the reader wants next.
#[derive(Debug)]
pub enum StreamStep<T> {
    /// Receive from the transport and come back with the outcome.
    Receive,
    /// Hand this to the caller: an item, or `None` at the end of the stream.
    Return(Option<T>),
}

/// All bytes of `chunks`, one chunk behind the other.
pub open spec fn joined(chunks: Seq<Seq<u8>>) -> Seq<u8>
    decreases chunks.len(),
{
    if chunks.len() == 0 {
        Seq::empty()
    } else {
        chunks[0] + joined(chunks.skip(1))
    }
}

} // verus!
