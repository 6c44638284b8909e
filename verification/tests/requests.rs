use bytes::Bytes;
use libhttp3::client::Call;
use libhttp3::request::{build_request, HttpMethod, RequestError, RequestPlan};
use libhttp3::H3Client;

fn fields(call: &Call) -> Vec<(String, String)> {
    call.head
        .headers()
        .iter()
        .map(|(name, value)| {
            (
                name.as_str().to_string(),
                value.to_str().unwrap().to_string(),
            )
        })
        .collect()
}

fn field(name: &str, value: &str) -> (String, String) {
    (name.to_string(), value.to_string())
}

fn refused(result: Result<Call, RequestError>) -> bool {
    result.is_err()
}

#[test]
fn a_get_request_names_the_host() {
    let call = H3Client::new("localhost", 4433).get("/items?id=3").unwrap();
    assert_eq!(call.head.method().as_str(), "GET");
    assert_eq!(call.head.uri().to_string(), "/items?id=3");
    assert_eq!(fields(&call), vec![field("host", "localhost:4433")]);
}

#[test]
fn a_delete_request_has_no_content_type() {
    let call = H3Client::new("localhost", 1).delete("/items/3").unwrap();
    assert_eq!(call.head.method().as_str(), "DELETE");
    assert_eq!(call.head.uri().to_string(), "/items/3");
    assert_eq!(fields(&call), vec![field("host", "localhost:1")]);
}

#[test]
fn a_body_is_announced_as_json() {
    let client = H3Client::new("localhost", 65535);
    let call = client
        .post("/items", Some(Bytes::from_static(b"{}")))
        .unwrap();
    assert_eq!(call.head.method().as_str(), "POST");
    assert_eq!(
        fields(&call),
        vec![
            field("host", "localhost:65535"),
            field("content-type", "application/json"),
        ]
    );
    let call = client.put("/items", Some(Bytes::new())).unwrap();
    assert_eq!(call.head.method().as_str(), "PUT");
    assert_eq!(
        fields(&call),
        vec![
            field("host", "localhost:65535"),
            field("content-type", "application/json"),
        ]
    );
}

#[test]
fn without_a_body_there_is_no_content_type() {
    let client = H3Client::new("localhost", 0);
    assert_eq!(
        fields(&client.post("/", None).unwrap()),
        vec![field("host", "localhost:0")]
    );
    assert_eq!(
        fields(&client.put("/", None).unwrap()),
        vec![field("host", "localhost:0")]
    );
}

#[test]
fn an_event_stream_is_asked_for_uncached() {
    let call = H3Client::new("localhost", 4433).get_stream("/events").unwrap();
    assert_eq!(call.head.method().as_str(), "GET");
    assert_eq!(call.head.uri().to_string(), "/events");
    assert_eq!(
        fields(&call),
        vec![
            field("host", "localhost:4433"),
            field("accept", "text/event-stream"),
            field("cache-control", "no-cache"),
        ]
    );
}

#[test]
fn a_binary_stream_is_asked_for_plainly() {
    let call = H3Client::new("localhost", 4433)
        .get_binary_stream("/binary")
        .unwrap();
    assert_eq!(call.head.method().as_str(), "GET");
    assert_eq!(call.head.uri().to_string(), "/binary");
    assert_eq!(fields(&call), vec![field("host", "localhost:4433")]);
}

#[test]
fn a_uri_gets_its_canonical_text() {
    let call = H3Client::new("localhost", 4433)
        .get("https://example.com?q=1#top")
        .unwrap();
    assert_eq!(call.head.uri().to_string(), "https://example.com/?q=1");
}

#[test]
fn a_path_that_is_no_uri_is_refused() {
    let client = H3Client::new("localhost", 4433);
    assert!(refused(client.get("/a b")));
    assert!(refused(client.get("")));
    assert!(refused(client.delete("/a b")));
    assert!(refused(client.post("/a b", None)));
    assert!(refused(client.put("/a b", Some(Bytes::new()))));
    assert!(refused(client.get_stream("/a b")));
    assert!(refused(client.get_binary_stream("/a b")));
}

#[test]
fn a_host_with_control_characters_is_refused() {
    assert!(refused(H3Client::new("local\nhost", 4433).get("/")));
    assert!(refused(H3Client::new("local\u{7f}host", 4433).get_stream("/")));
    assert!(refused(
        H3Client::new("local\0host", 4433).get_binary_stream("/")
    ));
    assert!(H3Client::new("local\thost", 4433).get("/").is_ok());
}

#[test]
fn a_host_is_sent_as_utf_8() {
    let call = H3Client::new("h\u{f6}st", 80).get("/").unwrap();
    assert_eq!(
        call.head.headers().get("host").unwrap().as_bytes(),
        "h\u{f6}st:80".as_bytes()
    );
}

#[test]
fn a_plan_becomes_a_request_with_lower_case_names() {
    let plan = RequestPlan {
        method: HttpMethod::Delete,
        path: "/x".to_string(),
        fields: vec![("X-Trace", "on".to_string())],
    };
    let request = build_request(&plan).unwrap();
    assert_eq!(request.method().as_str(), "DELETE");
    assert_eq!(request.headers().len(), 1);
    assert_eq!(request.headers().get("x-trace").unwrap(), "on");
}
