//! The course of one request: what is sent and received, in which order, and what
//! becomes of the response.
use vstd::prelude::*;

use crate::frame::BinaryStream;
use crate::outside::{bytes_content, bytes_from_vec, header_fields};
use crate::response::{
    as_text, coding_field, collect_headers, content_encoding, field_map, status_text, H3Response,
    ResponseContent, ResponseHeaders, Status,
};
use crate::sse::{EventDraft, EventState, SseStream};
use crate::stream::joined;

verus! {

/// What a request is made for.
#[derive(Debug, Clone, Copy, PartialEq, Eq)]
pub enum Purpose {
    /// A whole response.
    Response,
    /// A stream of server-sent events.
    Events,
    /// A stream of binary frames.
    Frames,
}

/// A stream was asked for and the server answered without success.
#[derive(Debug, Clone, Copy, PartialEq, Eq)]
pub struct StatusError {
    /// Whether it was a stream of binary frames; else one of events.
    pub binary: bool,
    /// The status of the answer.
    pub status: Status,
}

/// What is reported when the server answers a request for a stream with `status`.
pub open spec fn refusal(binary: bool, status: Seq<char>) -> Seq<char> {
    if binary {
        "Binary stream request failed with status: "@ + status
    } else {
        "SSE request failed with status: "@ + status
    }
}

/// What is reported when the server answers a request for a stream with `status`.
pub fn refusal_text(binary: bool, status: &str) -> (text: String)
    ensures
        text@ == refusal(binary, status@),
{
    let mut text = if binary {
        "Binary stream request failed with status: ".to_owned()
    } else {
        "SSE request failed with status: ".to_owned()
    };
    text.append(status);
    text
}

impl StatusError {
    /// The text of the error.
    pub fn to_string(&self) -> (text: String)
        ensures
            text@ == refusal(self.binary, status_text(self.status@)),
    {
        refusal_text(self.binary, self.status.to_string().as_str())
    }
}

/// What the transport has done.
pub enum ExchangeEvent<'a> {
    /// It has sent, or finished, what it was told to.
    Sent,
    /// It has received the status and the header fields of the response.
    Head { status: Status, headers: &'a http::HeaderMap<http::HeaderValue> },
    /// It has received a part of the body.
    Chunk(&'a [u8]),
    /// The body has ended.
    Ended,
}

/// What an [`ExchangeEvent`] holds.
pub enum ExchangeInput {
    Sent,
    Head { status: u16, fields: Seq<(Seq<char>, Seq<u8>)> },
    Chunk(Seq<u8>),
    Ended,
}

impl<'a> View for ExchangeEvent<'a> {
    type V = ExchangeInput;

    open spec fn view(&self) -> ExchangeInput {
        match self {
            ExchangeEvent::Sent => ExchangeInput::Sent,
            ExchangeEvent::Head { status, headers } => ExchangeInput::Head {
                status: status@,
                fields: header_fields(**headers),
            },
            ExchangeEvent::Chunk(bytes) => ExchangeInput::Chunk(bytes@),
            ExchangeEvent::Ended => ExchangeInput::Ended,
        }
    }
}

/// What is to be done next.
pub enum ExchangeAction {
    /// Send these bytes as the body.
    SendData(bytes::Bytes),
    /// Finish the sending side.
    Finish,
    /// Receive the status and the header fields.
    ReceiveHead,
    /// Receive a part of the body.
    ReceiveData,
    /// Hand the response to the caller.
    Respond(H3Response),
    /// Hand the caller a stream of events; the body is still to be received.
    OpenEvents(SseStream),
    /// Hand the caller a stream of frames; the body is still to be received.
    OpenFrames(BinaryStream),
    /// Report that the server refused a stream.
    Refuse(StatusError),
    /// The event does not belong to what was asked for; nothing has changed.
    Unexpected,
}

/// What an [`ExchangeAction`] holds.
pub enum ExchangeStep {
    SendData(Seq<u8>),
    Finish,
    ReceiveHead,
    ReceiveData,
    Respond(ResponseContent),
    OpenEvents { coding: Option<Seq<char>> },
    OpenFrames,
    Refuse { binary: bool, status: u16 },
    Unexpected,
}

impl ExchangeAction {
    /// Whether `self` is what `step` asks for. Streams are handed out with nothing
    /// received.
    pub open spec fn performs(self, step: ExchangeStep) -> bool {
        match self {
            ExchangeAction::SendData(bytes) => step == ExchangeStep::SendData(
                bytes_content(bytes),
            ),
            ExchangeAction::Finish => step is Finish,
            ExchangeAction::ReceiveHead => step is ReceiveHead,
            ExchangeAction::ReceiveData => step is ReceiveData,
            ExchangeAction::Respond(response) => response.headers.wf() && step
                == ExchangeStep::Respond(response@),
            ExchangeAction::OpenEvents(stream) => stream@ == (EventState {
                buffer: Seq::empty(),
                draft: EventDraft::blank(),
            }) && step == (ExchangeStep::OpenEvents { coding: stream.coding() }),
            ExchangeAction::OpenFrames(stream) => stream@ == Seq::<u8>::empty() && step
                is OpenFrames,
            ExchangeAction::Refuse(error) => step == (ExchangeStep::Refuse {
                binary: error.binary,
                status: error.status@,
            }),
            ExchangeAction::Unexpected => step is Unexpected,
        }
    }
}

/// How far a request has come.
pub enum ExchangeStage {
    /// The head is being sent; the body, if there is one, is still to be sent.
    SendingHead { body: Option<Seq<u8>> },
    /// The body is being sent.
    SendingData,
    /// The sending side is being finished.
    Finishing,
    /// The response has not begun.
    AwaitingHead,
    /// The body is being received; `data` is what has come of it.
    Collecting { status: u16, headers: Map<Seq<char>, Seq<char>>, data: Seq<u8> },
    /// The caller has got an answer.
    Over,
}

/// What becomes of a response head.
pub open spec fn on_head(
    purpose: Purpose,
    status: u16,
    fields: Seq<(Seq<char>, Seq<u8>)>,
) -> (ExchangeStage, ExchangeStep) {
    match purpose {
        Purpose::Response => (
            ExchangeStage::Collecting {
                status,
                headers: field_map(as_text(fields)),
                data: Seq::empty(),
            },
            ExchangeStep::ReceiveData,
        ),
        Purpose::Events => (
            ExchangeStage::Over,
            if 200 <= status < 300 {
                ExchangeStep::OpenEvents { coding: coding_field(as_text(fields)) }
            } else {
                ExchangeStep::Refuse { binary: false, status }
            },
        ),
        Purpose::Frames => (
            ExchangeStage::Over,
            if 200 <= status < 300 {
                ExchangeStep::OpenFrames
            } else {
                ExchangeStep::Refuse { binary: true, status }
            },
        ),
    }
}

/// One turn of an exchange.
pub open spec fn exchange_step(
    purpose: Purpose,
    stage: ExchangeStage,
    input: ExchangeInput,
) -> (ExchangeStage, ExchangeStep) {
    match (stage, input) {
        (ExchangeStage::SendingHead { body: Some(data) }, ExchangeInput::Sent) => (
            ExchangeStage::SendingData,
            ExchangeStep::SendData(data),
        ),
        (ExchangeStage::SendingHead { body: None }, ExchangeInput::Sent) => (
            ExchangeStage::Finishing,
            ExchangeStep::Finish,
        ),
        (ExchangeStage::SendingData, ExchangeInput::Sent) => (
            ExchangeStage::Finishing,
            ExchangeStep::Finish,
        ),
        (ExchangeStage::Finishing, ExchangeInput::Sent) => (
            ExchangeStage::AwaitingHead,
            ExchangeStep::ReceiveHead,
        ),
        (ExchangeStage::AwaitingHead, ExchangeInput::Head { status, fields }) => on_head(
            purpose,
            status,
            fields,
        ),
        (ExchangeStage::Collecting { status, headers, data }, ExchangeInput::Chunk(bytes)) => (
            ExchangeStage::Collecting { status, headers, data: data + bytes },
            ExchangeStep::ReceiveData,
        ),
        (ExchangeStage::Collecting { status, headers, data }, ExchangeInput::Ended) => (
            ExchangeStage::Over,
            ExchangeStep::Respond(ResponseContent { status, headers, body: data }),
        ),
        _ => (stage, ExchangeStep::Unexpected),
    }
}

enum Stage {
    SendingHead(Option<bytes::Bytes>),
    SendingData,
    Finishing,
    AwaitingHead,
    Collecting { status: Status, headers: ResponseHeaders, data: Vec<u8> },
    Over,
}

impl Stage {
    spec fn wf(self) -> bool {
        self matches Stage::Collecting { headers, .. } ==> headers.wf()
    }
}

impl View for Stage {
    type V = ExchangeStage;

    closed spec fn view(&self) -> ExchangeStage {
        match self {
            Stage::SendingHead(body) => ExchangeStage::SendingHead {
                body: match body {
                    Some(bytes) => Some(bytes_content(*bytes)),
                    None => None,
                },
            },
            Stage::SendingData => ExchangeStage::SendingData,
            Stage::Finishing => ExchangeStage::Finishing,
            Stage::AwaitingHead => ExchangeStage::AwaitingHead,
            Stage::Collecting { status, headers, data } => ExchangeStage::Collecting {
                status: status@,
                headers: headers@,
                data: data@,
            },
            Stage::Over => ExchangeStage::Over,
        }
    }
}

/// One request and its response. It starts with the head being sent; the transport
/// reports what it has done, and [`Exchange::step`] says what comes next.
pub struct Exchange {
    purpose: Purpose,
    stage: Stage,
}

impl View for Exchange {
    type V = ExchangeStage;

    closed spec fn view(&self) -> ExchangeStage {
        self.stage@
    }
}

impl Exchange {
    /// Whether the exchange is in order.
    pub closed spec fn wf(self) -> bool {
        self.stage.wf()
    }

    /// What the request is made for.
    pub closed spec fn purpose(self) -> Purpose {
        self.purpose
    }

    /// An exchange of which the head is being sent.
    pub fn new(purpose: Purpose, body: Option<bytes::Bytes>) -> (exchange: Exchange)
        ensures
            exchange.wf(),
            exchange.purpose() == purpose,
            exchange@ == (ExchangeStage::SendingHead {
                body: match body {
                    Some(bytes) => Some(bytes_content(bytes)),
                    None => None,
                },
            }),
    {
        Exchange { purpose, stage: Stage::SendingHead(body) }
    }

    /// Takes in what the transport has done and says what comes next.
    pub fn step(self, event: ExchangeEvent<'_>) -> (turn: (Exchange, ExchangeAction))
        requires
            self.wf(),
        ensures
            turn.0.wf(),
            turn.0.purpose() == self.purpose(),
            turn.0@ == exchange_step(self.purpose(), self@, event@).0,
            turn.1.performs(exchange_step(self.purpose(), self@, event@).1),
    {
        let purpose = self.purpose;
        let (stage, action) = match (self.stage, event) {
            (Stage::SendingHead(Some(data)), ExchangeEvent::Sent) => (
                Stage::SendingData,
                ExchangeAction::SendData(data),
            ),
            (Stage::SendingHead(None), ExchangeEvent::Sent) => (
                Stage::Finishing,
                ExchangeAction::Finish,
            ),
            (Stage::SendingData, ExchangeEvent::Sent) => (
                Stage::Finishing,
                ExchangeAction::Finish,
            ),
            (Stage::Finishing, ExchangeEvent::Sent) => (
                Stage::AwaitingHead,
                ExchangeAction::ReceiveHead,
            ),
            (Stage::AwaitingHead, ExchangeEvent::Head { status, headers }) => {
                answer_head(purpose, status, headers)
            },
            (Stage::Collecting { status, headers, data }, ExchangeEvent::Chunk(bytes)) => {
                let mut data = data;
                let ghost before = data@;
                data.extend_from_slice(bytes);
                assert(data@ =~= before + bytes@);
                (Stage::Collecting { status, headers, data }, ExchangeAction::ReceiveData)
            },
            (Stage::Collecting { status, headers, data }, ExchangeEvent::Ended) => (
                Stage::Over,
                ExchangeAction::Respond(
                    H3Response { status, headers, body: bytes_from_vec(data) },
                ),
            ),
            (stage, _) => (stage, ExchangeAction::Unexpected),
        };
        (Exchange { purpose, stage }, action)
    }
}

fn answer_head(
    purpose: Purpose,
    status: Status,
    headers: &http::HeaderMap<http::HeaderValue>,
) -> (turn: (Stage, ExchangeAction))
    ensures
        turn.0.wf(),
        turn.0@ == on_head(purpose, status@, header_fields(*headers)).0,
        turn.1.performs(on_head(purpose, status@, header_fields(*headers)).1),
{
    match purpose {
        Purpose::Response => {
            let data: Vec<u8> = Vec::new();
            let stage = Stage::Collecting { status, headers: collect_headers(headers), data };
            (stage, ExchangeAction::ReceiveData)
        },
        Purpose::Events => {
            if status.is_success() {
                let stream = SseStream::new(content_encoding(headers));
                (Stage::Over, ExchangeAction::OpenEvents(stream))
            } else {
                (Stage::Over, ExchangeAction::Refuse(StatusError { binary: false, status }))
            }
        },
        Purpose::Frames => {
            if status.is_success() {
                (Stage::Over, ExchangeAction::OpenFrames(BinaryStream::new()))
            } else {
                (Stage::Over, ExchangeAction::Refuse(StatusError { binary: true, status }))
            }
        },
    }
}

/// The place of a stage in the course of a request.
pub open spec fn progress(stage: ExchangeStage) -> nat {
    match stage {
        ExchangeStage::SendingHead { .. } => 0,
        ExchangeStage::SendingData => 1,
        ExchangeStage::Finishing => 2,
        ExchangeStage::AwaitingHead => 3,
        ExchangeStage::Collecting { .. } => 4,
        ExchangeStage::Over => 5,
    }
}

/// No step of a request is ever repeated: whatever the transport reports, the
/// exchange moves on, collects a part of the body, or stays exactly as it is.
pub proof fn the_course_never_goes_back(
    purpose: Purpose,
    stage: ExchangeStage,
    input: ExchangeInput,
)
    ensures
        ({
            let (next, step) = exchange_step(purpose, stage, input);
            ||| progress(next) > progress(stage)
            ||| stage is Collecting && next is Collecting && input is Chunk
            ||| next == stage && step is Unexpected
        }),
{
}

/// Once the caller has got an answer, nothing more happens.
pub proof fn an_answer_is_final(purpose: Purpose, input: ExchangeInput)
    ensures
        exchange_step(purpose, ExchangeStage::Over, input) == (
            ExchangeStage::Over,
            ExchangeStep::Unexpected,
        ),
{
}

/// A body is sent for a request that has one and for no other, and before the
/// sending side is finished.
pub proof fn data_is_sent_iff_there_is_a_body(purpose: Purpose, body: Option<Seq<u8>>)
    ensures
        ({
            let (next, step) = exchange_step(
                purpose,
                ExchangeStage::SendingHead { body },
                ExchangeInput::Sent,
            );
            match body {
                Some(data) => step == ExchangeStep::SendData(data) && exchange_step(
                    purpose,
                    next,
                    ExchangeInput::Sent,
                ).1 is Finish,
                None => step is Finish,
            }
        }),
{
}

/// What an exchange asks for as the transport reports `inputs` one after the other.
pub open spec fn exchange_run(
    purpose: Purpose,
    stage: ExchangeStage,
    inputs: Seq<ExchangeInput>,
) -> Seq<ExchangeStep>
    decreases inputs.len(),
{
    if inputs.len() == 0 {
        Seq::empty()
    } else {
        let (next, step) = exchange_step(purpose, stage, inputs[0]);
        seq![step] + exchange_run(purpose, next, inputs.skip(1))
    }
}

/// The parts of a body and its end, as the transport reports them.
pub open spec fn body_inputs(chunks: Seq<Seq<u8>>) -> Seq<ExchangeInput> {
    chunks.map_values(|bytes: Seq<u8>| ExchangeInput::Chunk(bytes)).push(ExchangeInput::Ended)
}

proof fn lemma_body_is_collected(
    status: u16,
    headers: Map<Seq<char>, Seq<char>>,
    data: Seq<u8>,
    chunks: Seq<Seq<u8>>,
)
    ensures
        exchange_run(
            Purpose::Response,
            ExchangeStage::Collecting { status, headers, data },
            body_inputs(chunks),
        ) == Seq::new(chunks.len(), |i: int| ExchangeStep::ReceiveData).push(
            ExchangeStep::Respond(
                ResponseContent { status, headers, body: data + joined(chunks) },
            ),
        ),
    decreases chunks.len(),
{
    let stage = ExchangeStage::Collecting { status, headers, data };
    let inputs = body_inputs(chunks);
    let steps = exchange_run(Purpose::Response, stage, inputs);
    let expected = Seq::new(chunks.len(), |i: int| ExchangeStep::ReceiveData).push(
        ExchangeStep::Respond(ResponseContent { status, headers, body: data + joined(chunks) }),
    );
    if chunks.len() == 0 {
        assert(data + joined(chunks) =~= data);
        assert(inputs[0] is Ended);
        reveal_with_fuel(exchange_run, 2);
        assert(steps =~= expected);
    } else {
        let later = chunks.skip(1);
        lemma_body_is_collected(status, headers, data + chunks[0], later);
        assert(inputs[0] == ExchangeInput::Chunk(chunks[0]));
        assert(inputs.skip(1) =~= body_inputs(later));
        assert(data + chunks[0] + joined(later) =~= data + joined(chunks));
        assert(steps =~= expected);
    }
}

/// The response that a caller gets has the status and the header fields that came
/// with the head, and as its body all bytes that came behind it, in order.
pub proof fn a_response_is_what_was_received(
    status: u16,
    fields: Seq<(Seq<char>, Seq<u8>)>,
    chunks: Seq<Seq<u8>>,
)
    ensures
        exchange_run(
            Purpose::Response,
            ExchangeStage::AwaitingHead,
            seq![ExchangeInput::Head { status, fields }] + body_inputs(chunks),
        ) == Seq::new(chunks.len() + 1, |i: int| ExchangeStep::ReceiveData).push(
            ExchangeStep::Respond(
                ResponseContent {
                    status,
                    headers: field_map(as_text(fields)),
                    body: joined(chunks),
                },
            ),
        ),
{
    let inputs = seq![ExchangeInput::Head { status, fields }] + body_inputs(chunks);
    lemma_body_is_collected(status, field_map(as_text(fields)), Seq::empty(), chunks);
    assert(inputs.skip(1) =~= body_inputs(chunks));
    assert(Seq::<u8>::empty() + joined(chunks) =~= joined(chunks));
    assert(exchange_run(Purpose::Response, ExchangeStage::AwaitingHead, inputs) =~= Seq::new(
        chunks.len() + 1,
        |i: int| ExchangeStep::ReceiveData,
    ).push(
        ExchangeStep::Respond(
            ResponseContent { status, headers: field_map(as_text(fields)), body: joined(chunks) },
        ),
    ));
}

/// A stream is opened if and only if the server reports success; else the caller
/// learns the status.
pub proof fn a_stream_is_opened_on_success_only(
    purpose: Purpose,
    status: u16,
    fields: Seq<(Seq<char>, Seq<u8>)>,
)
    requires
        !(purpose is Response),
    ensures
        ({
            let step = exchange_step(
                purpose,
                ExchangeStage::AwaitingHead,
                ExchangeInput::Head { status, fields },
            ).1;
            if 200 <= status < 300 {
                if purpose is Events {
                    step == (ExchangeStep::OpenEvents { coding: coding_field(as_text(fields)) })
                } else {
                    step is OpenFrames
                }
            } else {
                step == (ExchangeStep::Refuse { binary: purpose is Frames, status })
            }
        }),
{
}

} // verus!
