//! What holds of a request from its head to the answer.
use vstd::prelude::*;

use crate::exchange::{
    a_response_is_what_was_received, body_inputs, exchange_run, exchange_step, refusal,
    ExchangeAction, ExchangeEvent, ExchangeInput, ExchangeStage, ExchangeStep, Purpose,
};
use crate::header_laws::{
    a_coding_comes_from_a_field, a_coding_is_found_wherever_it_stands, headers_hold_every_field,
    holds_fields, is_value, names_coding,
};
use crate::outside::{bytes_content, header_fields};
use crate::response::{as_text, coding_field, H3Response};
use crate::stream::joined;

verus! {

/// What the transport reports until the head of the response is awaited.
pub open spec fn sent_inputs(has_body: bool) -> Seq<ExchangeInput> {
    if has_body {
        seq![ExchangeInput::Sent, ExchangeInput::Sent, ExchangeInput::Sent]
    } else {
        seq![ExchangeInput::Sent, ExchangeInput::Sent]
    }
}

/// What it is told to do until then: to send the body, if there is one, to finish, and to
/// receive.
pub open spec fn sent_steps(body: Option<Seq<u8>>) -> Seq<ExchangeStep> {
    match body {
        Some(data) => seq![
            ExchangeStep::SendData(data),
            ExchangeStep::Finish,
            ExchangeStep::ReceiveHead,
        ],
        None => seq![ExchangeStep::Finish, ExchangeStep::ReceiveHead],
    }
}

proof fn lemma_one_step(purpose: Purpose, stage: ExchangeStage, inputs: Seq<ExchangeInput>)
    requires
        inputs.len() > 0,
    ensures
        exchange_run(purpose, stage, inputs) == seq![exchange_step(purpose, stage, inputs[0]).1]
            + exchange_run(
            purpose,
            exchange_step(purpose, stage, inputs[0]).0,
            inputs.skip(1),
        ),
{
}

/// Whatever a request is made for, its head is followed by its whole body, if there is
/// one; then the sending side is finished, and only then the response is received.
pub proof fn a_request_is_sent_whole(
    purpose: Purpose,
    body: Option<Seq<u8>>,
    later: Seq<ExchangeInput>,
)
    ensures
        exchange_run(
            purpose,
            ExchangeStage::SendingHead { body },
            sent_inputs(body is Some) + later,
        ) == sent_steps(body) + exchange_run(purpose, ExchangeStage::AwaitingHead, later),
{
    let start = ExchangeStage::SendingHead { body };
    let inputs = sent_inputs(body is Some) + later;
    lemma_one_step(purpose, start, inputs);
    let second = inputs.skip(1);
    match body {
        Some(_) => {
            assert(second =~= seq![ExchangeInput::Sent, ExchangeInput::Sent] + later);
            lemma_one_step(purpose, ExchangeStage::SendingData, second);
            let third = second.skip(1);
            assert(third =~= seq![ExchangeInput::Sent] + later);
            lemma_one_step(purpose, ExchangeStage::Finishing, third);
            assert(third.skip(1) =~= later);
        },
        None => {
            assert(second =~= seq![ExchangeInput::Sent] + later);
            lemma_one_step(purpose, ExchangeStage::Finishing, second);
            assert(second.skip(1) =~= later);
        },
    }
    assert(exchange_run(purpose, start, inputs) =~= sent_steps(body) + exchange_run(
        purpose,
        ExchangeStage::AwaitingHead,
        later,
    ));
}

/// A request for a response takes its whole course: it is sent, its body is received part
/// by part, and the caller gets the status that came, every header field that came, and
/// as the body every byte that came, in order.
pub proof fn a_caller_gets_the_whole_response(
    body: Option<Seq<u8>>,
    status: u16,
    fields: Seq<(Seq<char>, Seq<u8>)>,
    chunks: Seq<Seq<u8>>,
)
    ensures
        ({
            let head = ExchangeInput::Head { status, fields };
            let steps = exchange_run(
                Purpose::Response,
                ExchangeStage::SendingHead { body },
                sent_inputs(body is Some) + (seq![head] + body_inputs(chunks)),
            );
            let n = sent_steps(body).len() as int;
            &&& steps.len() == n + chunks.len() + 2
            &&& steps.take(n) == sent_steps(body)
            &&& forall|i: int| n <= i < steps.len() - 1 ==> #[trigger] steps[i] is ReceiveData
            &&& steps.last() matches ExchangeStep::Respond(response) && {
                &&& response.status == status
                &&& response.body == joined(chunks)
                &&& holds_fields(response.headers, fields)
            }
        }),
{
    let head = ExchangeInput::Head { status, fields };
    let later = seq![head] + body_inputs(chunks);
    a_request_is_sent_whole(Purpose::Response, body, later);
    a_response_is_what_was_received(status, fields, chunks);
    headers_hold_every_field(fields);
    let steps = exchange_run(
        Purpose::Response,
        ExchangeStage::SendingHead { body },
        sent_inputs(body is Some) + later,
    );
    assert(steps.take(sent_steps(body).len() as int) =~= sent_steps(body));
}

/// A request for a stream takes its whole course: it is sent, and the head of the
/// response decides. On success the stream is opened, with the content coding of the
/// first field that names one; else the caller learns the status.
pub proof fn a_caller_gets_the_stream(
    purpose: Purpose,
    status: u16,
    fields: Seq<(Seq<char>, Seq<u8>)>,
)
    requires
        !(purpose is Response),
    ensures
        ({
            let head = ExchangeInput::Head { status, fields };
            let steps = exchange_run(
                purpose,
                ExchangeStage::SendingHead { body: None },
                sent_inputs(false) + seq![head],
            );
            &&& steps.len() == 3
            &&& steps[0] is Finish
            &&& steps[1] is ReceiveHead
            &&& if status < 200 || status >= 300 {
                steps[2] == (ExchangeStep::Refuse { binary: purpose is Frames, status })
            } else if purpose is Frames {
                steps[2] is OpenFrames
            } else {
                steps[2] matches ExchangeStep::OpenEvents { coding } && {
                    &&& coding is Some <==> exists|i: int|
                        0 <= i < fields.len() && names_coding((#[trigger] fields[i]).0)
                    &&& forall|i: int|
                        0 <= i < fields.len() && names_coding((#[trigger] fields[i]).0) && (
                        forall|j: int| 0 <= j < i ==> !names_coding((#[trigger] fields[j]).0))
                            ==> is_value(coding->0, fields[i].1)
                }
            }
        }),
{
    let head = ExchangeInput::Head { status, fields };
    a_request_is_sent_whole(purpose, None, seq![head]);
    lemma_one_step(purpose, ExchangeStage::AwaitingHead, seq![head]);
    assert(seq![head].skip(1) =~= Seq::empty());
    let steps = exchange_run(
        purpose,
        ExchangeStage::SendingHead { body: None },
        sent_inputs(false) + seq![head],
    );
    assert(steps =~= sent_steps(None).push(
        exchange_step(purpose, ExchangeStage::AwaitingHead, head).1,
    ));
    if 200 <= status < 300 && purpose is Events {
        let n = lemma_first_coding(fields, 0);
        if n < fields.len() {
            a_coding_is_found_wherever_it_stands(fields, n);
        } else {
            a_coding_comes_from_a_field(fields);
        }
        assert forall|i: int|
            0 <= i < fields.len() && names_coding((#[trigger] fields[i]).0) && (forall|j: int|
                0 <= j < i ==> !names_coding((#[trigger] fields[j]).0)) implies is_value(
            coding_field(as_text(fields))->0,
            fields[i].1,
        ) by {
            a_coding_is_found_wherever_it_stands(fields, i);
        }
    }
}

proof fn lemma_first_coding(fields: Seq<(Seq<char>, Seq<u8>)>, from: int) -> (n: int)
    requires
        0 <= from <= fields.len(),
        forall|j: int| 0 <= j < from ==> !names_coding((#[trigger] fields[j]).0),
    ensures
        from <= n <= fields.len(),
        forall|j: int| 0 <= j < n ==> !names_coding((#[trigger] fields[j]).0),
        n < fields.len() ==> names_coding(fields[n].0),
    decreases fields.len() - from,
{
    if from < fields.len() && !names_coding(fields[from].0) {
        lemma_first_coding(fields, from + 1)
    } else {
        from
    }
}

/// What the transport was not asked for changes nothing.
pub proof fn what_was_not_asked_for_changes_nothing(
    purpose: Purpose,
    stage: ExchangeStage,
    input: ExchangeInput,
)
    requires
        match stage {
            ExchangeStage::SendingHead { .. } => !(input is Sent),
            ExchangeStage::SendingData => !(input is Sent),
            ExchangeStage::Finishing => !(input is Sent),
            ExchangeStage::AwaitingHead => !(input is Head),
            ExchangeStage::Collecting { .. } => !(input is Chunk) && !(input is Ended),
            ExchangeStage::Over => true,
        },
    ensures
        exchange_step(purpose, stage, input).0 == stage,
        exchange_step(purpose, stage, input).1 is Unexpected,
{
}

/// An event of the transport hands on all that was received.
pub proof fn events_hand_on_what_was_received(event: ExchangeEvent<'_>)
    ensures
        match event {
            ExchangeEvent::Sent => event@ is Sent,
            ExchangeEvent::Head { status, headers } => event@ matches ExchangeInput::Head {
                status: code,
                fields,
            } && code == status@ && fields == header_fields(*headers),
            ExchangeEvent::Chunk(bytes) => event@ matches ExchangeInput::Chunk(data) && data
                == bytes@,
            ExchangeEvent::Ended => event@ is Ended,
        },
{
}

/// An action is what its step asks for, and hands on all that the step holds.
pub proof fn actions_do_what_is_asked_for(action: ExchangeAction, step: ExchangeStep)
    requires
        action.performs(step),
    ensures
        match step {
            ExchangeStep::SendData(data) => action matches ExchangeAction::SendData(bytes)
                && bytes_content(bytes) == data,
            ExchangeStep::Finish => action is Finish,
            ExchangeStep::ReceiveHead => action is ReceiveHead,
            ExchangeStep::ReceiveData => action is ReceiveData,
            ExchangeStep::Respond(content) => action matches ExchangeAction::Respond(response)
                && response.status@ == content.status && response.headers@ == content.headers
                && bytes_content(response.body) == content.body,
            ExchangeStep::OpenEvents { coding } => action matches ExchangeAction::OpenEvents(
                stream,
            ) && stream.coding() == coding && stream@.buffer.len() == 0
                && stream@.draft.event() is None,
            ExchangeStep::OpenFrames => action matches ExchangeAction::OpenFrames(stream)
                && stream@.len() == 0,
            ExchangeStep::Refuse { binary, status } => action matches ExchangeAction::Refuse(
                error,
            ) && error.binary == binary && error.status@ == status,
            ExchangeStep::Unexpected => action is Unexpected,
        },
{
}

/// A response shows the status, the headers and every byte of the body that it holds.
pub proof fn a_response_shows_all_that_it_holds(response: H3Response)
    ensures
        response@.status == response.status@,
        response@.headers == response.headers@,
        response@.body == bytes_content(response.body),
{
}

/// A refusal tells which kind of stream was refused, and ends with the whole status.
pub proof fn a_refusal_ends_with_the_status(binary: bool, status: Seq<char>)
    ensures
        ({
            let text = refusal(binary, status);
            let n = text.len() - status.len();
            &&& n >= 0
            &&& text.skip(n) == status
            &&& text.take(n) == if binary {
                "Binary stream request failed with status: "@
            } else {
                "SSE request failed with status: "@
            }
        }),
{
    let text = refusal(binary, status);
    let n = text.len() - status.len();
    assert(text.skip(n) =~= status);
    assert(text.take(n) =~= if binary {
        "Binary stream request failed with status: "@
    } else {
        "SSE request failed with status: "@
    });
}

} // verus!
