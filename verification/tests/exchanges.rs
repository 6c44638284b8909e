use bytes::Bytes;
use http::{HeaderMap, HeaderName, HeaderValue};
use libhttp3::exchange::{
    refusal_text, Exchange, ExchangeAction, ExchangeEvent, Purpose, StatusError,
};
use libhttp3::response::{collect_headers, content_encoding, ResponseHeaders, Status};
use libhttp3::stream::{StreamEvent, StreamStep};
use libhttp3::H3Client;

fn status(code: u16) -> Status {
    Status::new(code).unwrap()
}

fn header_map(fields: &[(&str, &[u8])]) -> HeaderMap {
    let mut headers = HeaderMap::new();
    for (name, value) in fields {
        headers.append(
            HeaderName::from_bytes(name.as_bytes()).unwrap(),
            HeaderValue::from_bytes(value).unwrap(),
        );
    }
    headers
}

/// Lets the exchange send its request, up to where the response is awaited.
fn sent(exchange: Exchange) -> Exchange {
    let (exchange, action) = exchange.step(ExchangeEvent::Sent);
    assert!(matches!(action, ExchangeAction::Finish));
    let (exchange, action) = exchange.step(ExchangeEvent::Sent);
    assert!(matches!(action, ExchangeAction::ReceiveHead));
    exchange
}

fn answered(purpose: Purpose, code: u16, headers: &HeaderMap) -> ExchangeAction {
    let exchange = sent(Exchange::new(purpose, None));
    let event = ExchangeEvent::Head {
        status: status(code),
        headers,
    };
    exchange.step(event).1
}

#[test]
fn a_body_is_sent_before_the_sending_side_is_finished() {
    let call = H3Client::new("localhost", 4433)
        .post("/", Some(Bytes::from_static(b"{\"a\":1}")))
        .unwrap();
    let (exchange, action) = call.exchange.step(ExchangeEvent::Sent);
    match action {
        ExchangeAction::SendData(data) => assert_eq!(&data[..], b"{\"a\":1}"),
        _ => panic!("the body is to be sent"),
    }
    sent(exchange);
}

#[test]
fn without_a_body_nothing_is_sent_behind_the_head() {
    sent(H3Client::new("localhost", 4433).get("/").unwrap().exchange);
}

#[test]
fn a_response_holds_all_that_was_received() {
    let headers = header_map(&[("content-type", b"text/plain"), ("x-id", b"7")]);
    let exchange = sent(Exchange::new(Purpose::Response, None));
    let (exchange, action) = exchange.step(ExchangeEvent::Head {
        status: status(200),
        headers: &headers,
    });
    assert!(matches!(action, ExchangeAction::ReceiveData));
    let (exchange, action) = exchange.step(ExchangeEvent::Chunk(b"hello "));
    assert!(matches!(action, ExchangeAction::ReceiveData));
    let (exchange, action) = exchange.step(ExchangeEvent::Chunk(b"world"));
    assert!(matches!(action, ExchangeAction::ReceiveData));
    let (exchange, action) = exchange.step(ExchangeEvent::Ended);
    match action {
        ExchangeAction::Respond(response) => {
            assert_eq!(response.status.as_u16(), 200);
            assert_eq!(response.headers.get("content-type"), Some("text/plain"));
            assert_eq!(response.headers.get("x-id"), Some("7"));
            assert_eq!(response.headers.fields().len(), 2);
            assert_eq!(&response.body[..], b"hello world");
        }
        _ => panic!("the response is complete"),
    }
    let (_, action) = exchange.step(ExchangeEvent::Ended);
    assert!(matches!(action, ExchangeAction::Unexpected));
}

#[test]
fn a_failure_status_is_still_a_response() {
    let exchange = sent(Exchange::new(Purpose::Response, None));
    let (exchange, _) = exchange.step(ExchangeEvent::Head {
        status: status(503),
        headers: &HeaderMap::new(),
    });
    match exchange.step(ExchangeEvent::Ended).1 {
        ExchangeAction::Respond(response) => {
            assert_eq!(response.status.as_u16(), 503);
            assert!(response.headers.fields().is_empty());
            assert!(response.body.is_empty());
        }
        _ => panic!("the response is complete"),
    }
}

#[test]
fn what_was_not_asked_for_changes_nothing() {
    let exchange = Exchange::new(Purpose::Response, None);
    let (exchange, action) = exchange.step(ExchangeEvent::Chunk(b"early"));
    assert!(matches!(action, ExchangeAction::Unexpected));
    let (exchange, action) = exchange.step(ExchangeEvent::Ended);
    assert!(matches!(action, ExchangeAction::Unexpected));
    sent(exchange);
}

#[test]
fn success_opens_a_stream_of_events() {
    let headers = header_map(&[("Content-Encoding", b"gzip")]);
    match answered(Purpose::Events, 200, &headers) {
        ExchangeAction::OpenEvents(mut stream) => {
            assert_eq!(stream.encoding(), Some("gzip"));
            assert!(matches!(
                stream.next_event(StreamEvent::Ended),
                StreamStep::Return(None)
            ));
        }
        _ => panic!("the stream is to be opened"),
    }
    match answered(Purpose::Events, 299, &HeaderMap::new()) {
        ExchangeAction::OpenEvents(stream) => assert_eq!(stream.encoding(), None),
        _ => panic!("the stream is to be opened"),
    }
}

#[test]
fn success_opens_a_stream_of_frames() {
    match answered(Purpose::Frames, 204, &HeaderMap::new()) {
        ExchangeAction::OpenFrames(mut stream) => assert!(matches!(
            stream.next_frame(StreamEvent::Ended),
            Ok(StreamStep::Return(None))
        )),
        _ => panic!("the stream is to be opened"),
    }
}

fn refusal(purpose: Purpose, code: u16) -> StatusError {
    match answered(purpose, code, &HeaderMap::new()) {
        ExchangeAction::Refuse(error) => error,
        _ => panic!("the stream is to be refused"),
    }
}

#[test]
fn any_other_status_refuses_a_stream() {
    assert_eq!(
        refusal(Purpose::Events, 404).to_string(),
        "SSE request failed with status: 404 Not Found"
    );
    assert_eq!(
        refusal(Purpose::Frames, 500).to_string(),
        "Binary stream request failed with status: 500 Internal Server Error"
    );
    assert_eq!(
        refusal(Purpose::Frames, 300).to_string(),
        "Binary stream request failed with status: 300 Multiple Choices"
    );
    assert_eq!(
        refusal(Purpose::Events, 199).to_string(),
        "SSE request failed with status: 199 <unknown status code>"
    );
}

#[test]
fn refusals_name_the_kind_of_stream() {
    assert_eq!(
        refusal_text(false, "418"),
        "SSE request failed with status: 418"
    );
    assert_eq!(
        refusal_text(true, "418"),
        "Binary stream request failed with status: 418"
    );
}

#[test]
fn a_status_is_a_number_of_three_digits() {
    assert!(Status::new(99).is_none());
    assert!(Status::new(1000).is_none());
    assert_eq!(status(100).as_u16(), 100);
    assert_eq!(status(999).to_string(), "999 <unknown status code>");
    assert_eq!(status(200).to_string(), "200 OK");
    assert!(!status(199).is_success());
    assert!(status(200).is_success());
    assert!(status(299).is_success());
    assert!(!status(300).is_success());
}

#[test]
fn the_last_value_of_a_repeated_field_counts() {
    let headers = header_map(&[
        ("set-cookie", b"a=1"),
        ("x-one", b"1"),
        ("set-cookie", b"b=2"),
    ]);
    let collected = collect_headers(&headers);
    assert_eq!(collected.get("set-cookie"), Some("b=2"));
    assert_eq!(collected.get("x-one"), Some("1"));
    assert_eq!(collected.fields().len(), 2);
}

#[test]
fn a_value_that_is_no_text_counts_as_empty() {
    let headers = header_map(&[("x-raw", b"caf\xe9"), ("x-tab", b"a\tb"), ("x-none", b"")]);
    let collected = collect_headers(&headers);
    assert_eq!(collected.get("x-raw"), Some(""));
    assert_eq!(collected.get("x-tab"), Some("a\tb"));
    assert_eq!(collected.get("x-none"), Some(""));
    assert_eq!(collected.get("x-missing"), None);
}

#[test]
fn the_first_content_coding_counts() {
    let headers = header_map(&[
        ("x-one", b"1"),
        ("Content-Encoding", b"br"),
        ("Content-Encoding", b"gzip"),
    ]);
    assert_eq!(content_encoding(&headers), Some("br".to_string()));
    let headers = header_map(&[("content-encoding", b"\xff")]);
    assert_eq!(content_encoding(&headers), Some(String::new()));
    assert_eq!(content_encoding(&header_map(&[("x-one", b"1")])), None);
}

#[test]
fn inserting_replaces_the_value_of_a_name() {
    let mut headers = ResponseHeaders::new();
    assert_eq!(headers.get("a"), None);
    headers.insert("a".to_string(), "1".to_string());
    headers.insert("b".to_string(), "2".to_string());
    headers.insert("a".to_string(), "3".to_string());
    assert_eq!(headers.get("a"), Some("3"));
    assert_eq!(headers.get("b"), Some("2"));
    assert_eq!(headers.fields().len(), 2);
}
