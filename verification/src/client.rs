//! The client: one request for each call.
use vstd::prelude::*;
use vstd::utf8::encode_utf8;

use crate::connect::{authority, names_server, server_authority};
use crate::exchange::{Exchange, ExchangeStage, Purpose};
use crate::outside::{bytes_content, parsed_uri, request_content};
use crate::request::{
    a_frame_stream_is_asked_for, a_request_is_what_was_asked_for, an_event_stream_is_asked_for,
    asks_for, build_request, events_plan, frames_plan, is_field_value, plan_events, plan_frames,
    plan_response, plans_have_proper_names, response_plan, HttpMethod, RequestContent,
    RequestError, RequestPlan,
};

verus! {

/// A client of one server.
#[derive(Debug, Clone)]
pub struct H3Client {
    server_host: String,
}

impl View for H3Client {
    type V = Seq<char>;

    /// The host that each request names.
    closed spec fn view(&self) -> Seq<char> {
        self.server_host@
    }
}

/// A request that is ready to be sent, and the exchange that begins with it.
pub struct Call {
    /// The head to send first.
    pub head: http::Request<()>,
    /// What follows.
    pub exchange: Exchange,
}

impl Call {
    /// Whether the call sends `content` and then `body`, for `purpose`.
    pub open spec fn sends(
        self,
        content: RequestContent,
        purpose: Purpose,
        body: Option<bytes::Bytes>,
    ) -> bool {
        &&& request_content(self.head) == content
        &&& self.exchange.wf()
        &&& self.exchange.purpose() == purpose
        &&& self.exchange@ == (ExchangeStage::SendingHead {
            body: match body {
                Some(bytes) => Some(bytes_content(bytes)),
                None => None,
            },
        })
    }
}

/// Whether `result` is the call for `content`, or the error if there is none.
pub open spec fn is_call(
    result: Result<Call, RequestError>,
    content: Option<RequestContent>,
    purpose: Purpose,
    body: Option<bytes::Bytes>,
) -> bool {
    match content {
        Some(c) => result matches Ok(call) && call.sends(c, purpose, body),
        None => result is Err,
    }
}

/// Whether a call was made exactly if `path` is a URI and the host can be named, and goes
/// by `method` to `path`, with these header fields behind the host.
pub open spec fn goes_to(
    result: Result<Call, RequestError>,
    method: Seq<char>,
    path: Seq<char>,
    host: Seq<char>,
    more: Seq<(Seq<char>, Seq<char>)>,
) -> bool {
    &&& result is Ok <==> parsed_uri(path) is Some && is_field_value(encode_utf8(host))
    &&& result matches Ok(call) ==> asks_for(
        request_content(call.head),
        method,
        parsed_uri(path)->0,
        host,
        more,
    )
}

/// The header fields, besides the host, of a request with or without a body.
pub open spec fn content_fields(has_body: bool) -> Seq<(Seq<char>, Seq<char>)> {
    if has_body {
        seq![("content-type"@, "application/json"@)]
    } else {
        Seq::empty()
    }
}

/// A call that was made sends its head with what was asked for, and behind it every byte
/// of the body, if there is one.
pub proof fn a_call_sends_what_it_was_made_for(
    result: Result<Call, RequestError>,
    content: Option<RequestContent>,
    purpose: Purpose,
    body: Option<bytes::Bytes>,
)
    requires
        is_call(result, content, purpose, body),
    ensures
        result is Ok <==> content is Some,
        result matches Ok(call) ==> {
            &&& request_content(call.head) == content->0
            &&& call.exchange.wf()
            &&& call.exchange.purpose() == purpose
            &&& call.exchange@ matches ExchangeStage::SendingHead { body: data } && {
                &&& data is Some <==> body is Some
                &&& body matches Some(bytes) ==> data == Some(bytes_content(bytes))
            }
        },
{
}

fn call_for(plan: &RequestPlan, purpose: Purpose, body: Option<bytes::Bytes>) -> (result: Result<
    Call,
    RequestError,
>)
    requires
        plan@.has_proper_names(),
    ensures
        is_call(result, plan@.request(), purpose, body),
{
    match build_request(plan) {
        Ok(head) => Ok(Call { head, exchange: Exchange::new(purpose, body) }),
        Err(e) => Err(e),
    }
}

impl H3Client {
    /// A client of the server with this name and port.
    pub fn new(server_name: &str, server_port: u16) -> (client: H3Client)
        ensures
            client@ == authority(server_name@, server_port),
            names_server(client@, server_name@, server_port),
    {
        H3Client { server_host: server_authority(server_name, server_port) }
    }

    /// A `DELETE` request.
    pub fn delete(&self, path: &str) -> (result: Result<Call, RequestError>)
        ensures
            is_call(
                result,
                response_plan(self@, HttpMethod::Delete, path@, false).request(),
                Purpose::Response,
                None,
            ),
            goes_to(result, "DELETE"@, path@, self@, Seq::empty()),
    {
        self.request(HttpMethod::Delete, path, None)
    }

    /// A `GET` request.
    pub fn get(&self, path: &str) -> (result: Result<Call, RequestError>)
        ensures
            is_call(
                result,
                response_plan(self@, HttpMethod::Get, path@, false).request(),
                Purpose::Response,
                None,
            ),
            goes_to(result, "GET"@, path@, self@, Seq::empty()),
    {
        self.request(HttpMethod::Get, path, None)
    }

    /// A `POST` request.
    pub fn post(&self, path: &str, body: Option<bytes::Bytes>) -> (result: Result<
        Call,
        RequestError,
    >)
        ensures
            is_call(
                result,
                response_plan(self@, HttpMethod::Post, path@, body is Some).request(),
                Purpose::Response,
                body,
            ),
            goes_to(result, "POST"@, path@, self@, content_fields(body is Some)),
    {
        self.request(HttpMethod::Post, path, body)
    }

    /// A `PUT` request.
    pub fn put(&self, path: &str, body: Option<bytes::Bytes>) -> (result: Result<
        Call,
        RequestError,
    >)
        ensures
            is_call(
                result,
                response_plan(self@, HttpMethod::Put, path@, body is Some).request(),
                Purpose::Response,
                body,
            ),
            goes_to(result, "PUT"@, path@, self@, content_fields(body is Some)),
    {
        self.request(HttpMethod::Put, path, body)
    }

    /// A request for a stream of server-sent events.
    pub fn get_stream(&self, path: &str) -> (result: Result<Call, RequestError>)
        ensures
            is_call(result, events_plan(self@, path@).request(), Purpose::Events, None),
            goes_to(
                result,
                "GET"@,
                path@,
                self@,
                seq![("accept"@, "text/event-stream"@), ("cache-control"@, "no-cache"@)],
            ),
    {
        self.sse_stream(path)
    }

    /// A request for a stream of binary frames.
    pub fn get_binary_stream(&self, path: &str) -> (result: Result<Call, RequestError>)
        ensures
            is_call(result, frames_plan(self@, path@).request(), Purpose::Frames, None),
            goes_to(result, "GET"@, path@, self@, Seq::empty()),
    {
        let plan = plan_frames(self.server_host.as_str(), path);
        proof {
            plans_have_proper_names(self@, HttpMethod::Get, path@, false);
            a_frame_stream_is_asked_for(self@, path@);
        }
        call_for(&plan, Purpose::Frames, None)
    }

    /// A request for a whole response.
    pub fn request(&self, method: HttpMethod, path: &str, body: Option<bytes::Bytes>) -> (result:
        Result<Call, RequestError>)
        ensures
            is_call(
                result,
                response_plan(self@, method, path@, body is Some).request(),
                Purpose::Response,
                body,
            ),
            goes_to(result, method.token(), path@, self@, content_fields(body is Some)),
    {
        let plan = plan_response(self.server_host.as_str(), method, path, body.is_some());
        proof {
            plans_have_proper_names(self@, method, path@, body is Some);
            a_request_is_what_was_asked_for(self@, method, path@, body is Some);
        }
        call_for(&plan, Purpose::Response, body)
    }

    /// A request for a stream of server-sent events.
    pub fn sse_stream(&self, path: &str) -> (result: Result<Call, RequestError>)
        ensures
            is_call(result, events_plan(self@, path@).request(), Purpose::Events, None),
            goes_to(
                result,
                "GET"@,
                path@,
                self@,
                seq![("accept"@, "text/event-stream"@), ("cache-control"@, "no-cache"@)],
            ),
    {
        let plan = plan_events(self.server_host.as_str(), path);
        proof {
            plans_have_proper_names(self@, HttpMethod::Get, path@, false);
            an_event_stream_is_asked_for(self@, path@);
        }
        call_for(&plan, Purpose::Events, None)
    }
}

} // verus!
