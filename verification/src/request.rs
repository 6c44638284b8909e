//! Requests: what a client sends for each of its calls.
use vstd::prelude::*;
use vstd::utf8::{encode_utf8, is_ascii_chars_encode_utf8};

use crate::outside::{
    builder_content, built_request, parsed_uri, request_builder, request_content, with_header,
    with_method, with_uri,
};
use crate::text::lower_case;

verus! {

/// The methods that a client uses.
#[derive(Debug, Clone, Copy, PartialEq, Eq)]
pub enum HttpMethod {
    Get,
    Post,
    Put,
    Delete,
}

impl HttpMethod {
    /// The name of the method on the wire.
    pub open spec fn token(self) -> Seq<char> {
        match self {
            HttpMethod::Get => "GET"@,
            HttpMethod::Post => "POST"@,
            HttpMethod::Put => "PUT"@,
            HttpMethod::Delete => "DELETE"@,
        }
    }

    /// The name of the method on the wire.
    pub fn as_str(&self) -> (name: &'static str)
        ensures
            name@ == self.token(),
    {
        match self {
            HttpMethod::Get => "GET",
            HttpMethod::Post => "POST",
            HttpMethod::Put => "PUT",
            HttpMethod::Delete => "DELETE",
        }
    }
}

/// A request as the client means it, before it is checked.
#[derive(Debug)]
pub struct RequestPlan {
    pub method: HttpMethod,
    pub path: String,
    /// The header fields, name and value.
    pub fields: Vec<(&'static str, String)>,
}

/// What a [`RequestPlan`] holds.
#[verifier::ext_equal]
pub struct PlanContent {
    pub method: HttpMethod,
    pub path: Seq<char>,
    pub fields: Seq<(Seq<char>, Seq<char>)>,
}

impl View for RequestPlan {
    type V = PlanContent;

    open spec fn view(&self) -> PlanContent {
        PlanContent {
            method: self.method,
            path: self.path@,
            fields: Seq::new(
                self.fields@.len(),
                |i: int| (self.fields@[i].0@, self.fields@[i].1@),
            ),
        }
    }
}

/// The plan for a request that asks for a whole response. A body is announced as
/// JSON.
pub open spec fn response_plan(
    host: Seq<char>,
    method: HttpMethod,
    path: Seq<char>,
    has_body: bool,
) -> PlanContent {
    PlanContent {
        method,
        path,
        fields: if has_body {
            seq![("Host"@, host), ("Content-Type"@, "application/json"@)]
        } else {
            seq![("Host"@, host)]
        },
    }
}

/// The plan for a request that asks for a stream of events.
pub open spec fn events_plan(host: Seq<char>, path: Seq<char>) -> PlanContent {
    PlanContent {
        method: HttpMethod::Get,
        path,
        fields: seq![
            ("Host"@, host),
            ("Accept"@, "text/event-stream"@),
            ("Cache-Control"@, "no-cache"@),
        ],
    }
}

/// The plan for a request that asks for a stream of binary frames.
pub open spec fn frames_plan(host: Seq<char>, path: Seq<char>) -> PlanContent {
    PlanContent { method: HttpMethod::Get, path, fields: seq![("Host"@, host)] }
}

/// Plans a request that asks for a whole response. A body is announced as JSON.
pub fn plan_response(host: &str, method: HttpMethod, path: &str, has_body: bool) -> (plan:
    RequestPlan)
    ensures
        plan@ == response_plan(host@, method, path@, has_body),
{
    let mut fields: Vec<(&'static str, String)> = Vec::new();
    fields.push(("Host", host.to_owned()));
    if has_body {
        fields.push(("Content-Type", "application/json".to_owned()));
    }
    let plan = RequestPlan { method, path: path.to_owned(), fields };
    assert(plan@.fields =~= response_plan(host@, method, path@, has_body).fields);
    plan
}

/// Plans a request that asks for a stream of events.
pub fn plan_events(host: &str, path: &str) -> (plan: RequestPlan)
    ensures
        plan@ == events_plan(host@, path@),
{
    let mut fields: Vec<(&'static str, String)> = Vec::new();
    fields.push(("Host", host.to_owned()));
    fields.push(("Accept", "text/event-stream".to_owned()));
    fields.push(("Cache-Control", "no-cache".to_owned()));
    let plan = RequestPlan { method: HttpMethod::Get, path: path.to_owned(), fields };
    assert(plan@.fields =~= events_plan(host@, path@).fields);
    plan
}

/// Plans a request that asks for a stream of binary frames.
pub fn plan_frames(host: &str, path: &str) -> (plan: RequestPlan)
    ensures
        plan@ == frames_plan(host@, path@),
{
    let mut fields: Vec<(&'static str, String)> = Vec::new();
    fields.push(("Host", host.to_owned()));
    let plan = RequestPlan { method: HttpMethod::Get, path: path.to_owned(), fields };
    assert(plan@.fields =~= frames_plan(host@, path@).fields);
    plan
}

/// A header field name made of letters and hyphens.
pub open spec fn is_field_name(name: Seq<char>) -> bool {
    &&& 0 < name.len() <= 64
    &&& forall|i: int|
        0 <= i < name.len() ==> {
            let c = #[trigger] name[i];
            'a' <= c <= 'z' || 'A' <= c <= 'Z' || c == '-'
        }
}

/// Bytes that a header field can carry: no control characters but the tab.
pub open spec fn is_field_value(value: Seq<u8>) -> bool {
    forall|i: int|
        0 <= i < value.len() ==> {
            let b = #[trigger] value[i];
            b >= 32 && b != 127 || b == 9
        }
}

/// What a request holds.
#[verifier::ext_equal]
pub struct RequestContent {
    /// The method.
    pub method: Seq<char>,
    /// The text of the URI.
    pub uri: Seq<char>,
    /// The header fields: name in lower case, and value.
    pub headers: Seq<(Seq<char>, Seq<u8>)>,
}

/// Why a request cannot be made: its URI or the value of a field is refused.
#[derive(Debug)]
pub struct RequestError {
    pub source: http::Error,
}

impl PlanContent {
    /// Whether the fields have names of letters and hyphens, each name once and not
    /// too many of them.
    pub open spec fn has_proper_names(self) -> bool {
        &&& self.fields.len() <= 16
        &&& forall|i: int|
            0 <= i < self.fields.len() ==> is_field_name((#[trigger] self.fields[i]).0)
        &&& forall|i: int, j: int|
            0 <= i < j < self.fields.len() ==> lower_case((#[trigger] self.fields[i]).0)
                != lower_case((#[trigger] self.fields[j]).0)
    }

    /// The header fields on the wire.
    pub open spec fn headers(self) -> Seq<(Seq<char>, Seq<u8>)> {
        self.fields.map_values(
            |field: (Seq<char>, Seq<char>)| (lower_case(field.0), encode_utf8(field.1)),
        )
    }

    /// Whether all values can be carried in a header field.
    pub open spec fn has_proper_values(self) -> bool {
        forall|i: int|
            0 <= i < self.fields.len() ==> is_field_value(
                encode_utf8((#[trigger] self.fields[i]).1),
            )
    }

    /// The request that the plan amounts to, if its path is the URI `uri`.
    pub open spec fn with_uri(self, uri: Option<Seq<char>>) -> Option<RequestContent> {
        match uri {
            Some(text) => if self.has_proper_values() {
                Some(
                    RequestContent {
                        method: self.method.token(),
                        uri: text,
                        headers: self.headers(),
                    },
                )
            } else {
                None
            },
            None => None,
        }
    }

    /// The request that the plan amounts to; `None` if it is refused.
    pub open spec fn request(self) -> Option<RequestContent> {
        self.with_uri(parsed_uri(self.path))
    }
}

/// Makes the request that a plan amounts to.
pub fn build_request(plan: &RequestPlan) -> (result: Result<http::Request<()>, RequestError>)
    requires
        plan@.has_proper_names(),
    ensures
        match plan@.request() {
            Some(content) => result matches Ok(request) && request_content(request) == content,
            None => result is Err,
        },
{
    let ghost content = plan@;
    let mut builder = with_method(request_builder(), plan.method.as_str());
    builder = with_uri(builder, plan.path.as_str());
    let ghost uri = parsed_uri(content.path);
    let mut i: usize = 0;
    proof {
        let none = PlanContent { fields: content.fields.take(0), ..content };
        assert(none.headers() =~= Seq::empty());
    }
    while i < plan.fields.len()
        invariant
            i <= plan.fields@.len(),
            content == plan@,
            content.has_proper_names(),
            content.fields.len() == plan.fields@.len(),
            builder_content(builder) == (PlanContent {
                fields: content.fields.take(i as int),
                ..content
            }).with_uri(uri),
        decreases plan.fields@.len() - i,
    {
        let ghost before = PlanContent { fields: content.fields.take(i as int), ..content };
        let ghost after = PlanContent { fields: content.fields.take(i + 1), ..content };
        let ghost field = content.fields[i as int];
        proof {
            assert(is_field_name(field.0));
            assert forall|j: int| 0 <= j < before.headers().len() implies (
            #[trigger] before.headers()[j]).0 != lower_case(field.0) by {
                assert(content.fields[j] == before.fields[j]);
            }
        }
        builder = with_header(builder, plan.fields[i].0, plan.fields[i].1.as_str());
        proof {
            assert(after.fields =~= before.fields.push(field));
            assert(after.headers() =~= before.headers().push(
                (lower_case(field.0), encode_utf8(field.1)),
            ));
            assert(after.has_proper_values() == (before.has_proper_values() && is_field_value(
                encode_utf8(field.1),
            ))) by {
                assert(after.fields[i as int] == field);
                assert forall|j: int| 0 <= j < i implies after.fields[j] == before.fields[j] by {}
            }
        }
        i = i + 1;
    }
    assert(content.fields.take(content.fields.len() as int) =~= content.fields);
    match built_request(builder) {
        Ok(request) => Ok(request),
        Err(source) => Err(RequestError { source }),
    }
}

/// The names in each of the plans are proper ones.
pub proof fn plans_have_proper_names(
    host: Seq<char>,
    method: HttpMethod,
    path: Seq<char>,
    has_body: bool,
)
    ensures
        response_plan(host, method, path, has_body).has_proper_names(),
        events_plan(host, path).has_proper_names(),
        frames_plan(host, path).has_proper_names(),
{
    reveal_strlit("Host");
    reveal_strlit("Content-Type");
    reveal_strlit("Accept");
    reveal_strlit("Cache-Control");
    assert(lower_case("Host"@).len() == 4);
    assert(lower_case("Content-Type"@).len() == 12);
    assert(lower_case("Accept"@).len() == 6);
    assert(lower_case("Cache-Control"@).len() == 13);
}

/// Of all that a client plans to send only the path and the host can be refused: the
/// path if it is no URI, the host if it cannot be carried in a header field.
pub proof fn only_path_or_host_can_be_refused(
    host: Seq<char>,
    method: HttpMethod,
    path: Seq<char>,
    has_body: bool,
)
    ensures
        ({
            let refused = parsed_uri(path) is None || !is_field_value(encode_utf8(host));
            &&& (response_plan(host, method, path, has_body).request() is None) == refused
            &&& (events_plan(host, path).request() is None) == refused
            &&& (frames_plan(host, path).request() is None) == refused
        }),
{
    reveal_strlit("application/json");
    reveal_strlit("text/event-stream");
    reveal_strlit("no-cache");
    is_ascii_chars_encode_utf8("application/json"@);
    is_ascii_chars_encode_utf8("text/event-stream"@);
    is_ascii_chars_encode_utf8("no-cache"@);
    assert(response_plan(host, method, path, has_body).fields[0].1 == host);
    assert(events_plan(host, path).fields[0].1 == host);
    assert(frames_plan(host, path).fields[0].1 == host);
}

/// Whether a request asks for `uri` of `host` by `method`, with these header fields
/// behind the one that names the host, and no others.
pub open spec fn asks_for(
    content: RequestContent,
    method: Seq<char>,
    uri: Seq<char>,
    host: Seq<char>,
    more: Seq<(Seq<char>, Seq<char>)>,
) -> bool {
    &&& content.method == method
    &&& content.uri == uri
    &&& content.headers.len() == more.len() + 1
    &&& content.headers[0] == ("host"@, encode_utf8(host))
    &&& forall|i: int|
        0 <= i < more.len() ==> content.headers[i + 1] == (
            (#[trigger] more[i]).0,
            encode_utf8(more[i].1),
        )
}

/// A plan shows its method, its path and each of its fields at its place.
pub proof fn a_plan_shows_all_that_it_holds(plan: RequestPlan)
    ensures
        plan@.method == plan.method,
        plan@.path == plan.path@,
        plan@.fields.len() == plan.fields@.len(),
        forall|i: int|
            0 <= i < plan.fields@.len() ==> plan@.fields[i] == (
                (#[trigger] plan.fields@[i]).0@,
                plan.fields@[i].1@,
            ),
{
}

/// A plan is sent as it is: by its method, to the URI that its path parses as, with each
/// of its fields at its place. It is refused exactly if its path does not parse or one of
/// its values cannot be carried.
pub proof fn a_plan_is_sent_as_it_is(plan: PlanContent)
    ensures
        plan.request() is None <==> parsed_uri(plan.path) is None || exists|i: int|
            0 <= i < plan.fields.len() && !is_field_value(
                encode_utf8((#[trigger] plan.fields[i]).1),
            ),
        plan.request() matches Some(content) ==> {
            &&& parsed_uri(plan.path) == Some(content.uri)
            &&& content.method == match plan.method {
                HttpMethod::Get => "GET"@,
                HttpMethod::Post => "POST"@,
                HttpMethod::Put => "PUT"@,
                HttpMethod::Delete => "DELETE"@,
            }
            &&& content.headers.len() == plan.fields.len()
            &&& forall|i: int|
                0 <= i < plan.fields.len() ==> content.headers[i] == (
                    lower_case((#[trigger] plan.fields[i]).0),
                    encode_utf8(plan.fields[i].1),
                )
        },
{
}

/// A request for a whole response goes by the method and to the path that the caller
/// gave. It names the host, and JSON as its content if and only if there is a body.
pub proof fn a_request_is_what_was_asked_for(
    host: Seq<char>,
    method: HttpMethod,
    path: Seq<char>,
    has_body: bool,
)
    ensures
        response_plan(host, method, path, has_body).request() is Some <==> parsed_uri(path) is Some
            && is_field_value(encode_utf8(host)),
        response_plan(host, method, path, has_body).request() matches Some(content) ==> asks_for(
            content,
            match method {
                HttpMethod::Get => "GET"@,
                HttpMethod::Post => "POST"@,
                HttpMethod::Put => "PUT"@,
                HttpMethod::Delete => "DELETE"@,
            },
            parsed_uri(path)->0,
            host,
            if has_body {
                seq![("content-type"@, "application/json"@)]
            } else {
                Seq::empty()
            },
        ),
{
    let plan = response_plan(host, method, path, has_body);
    a_plan_is_sent_as_it_is(plan);
    only_path_or_host_can_be_refused(host, method, path, has_body);
    lemma_lower_names();
    assert(plan.fields[0] == ("Host"@, host));
    if has_body {
        assert(plan.fields[1] == ("Content-Type"@, "application/json"@));
    }
}

/// A request for a stream of events gets the path that the caller gave. It names the
/// host, asks for events, and for none out of a cache.
pub proof fn an_event_stream_is_asked_for(host: Seq<char>, path: Seq<char>)
    ensures
        events_plan(host, path).request() is Some <==> parsed_uri(path) is Some && is_field_value(
            encode_utf8(host),
        ),
        events_plan(host, path).request() matches Some(content) ==> asks_for(
            content,
            "GET"@,
            parsed_uri(path)->0,
            host,
            seq![("accept"@, "text/event-stream"@), ("cache-control"@, "no-cache"@)],
        ),
{
    let plan = events_plan(host, path);
    a_plan_is_sent_as_it_is(plan);
    only_path_or_host_can_be_refused(host, HttpMethod::Get, path, false);
    lemma_lower_names();
    assert(plan.fields[0] == ("Host"@, host));
    assert(plan.fields[1] == ("Accept"@, "text/event-stream"@));
    assert(plan.fields[2] == ("Cache-Control"@, "no-cache"@));
}

/// A request for a stream of frames gets the path that the caller gave, and names the
/// host alone.
pub proof fn a_frame_stream_is_asked_for(host: Seq<char>, path: Seq<char>)
    ensures
        frames_plan(host, path).request() is Some <==> parsed_uri(path) is Some && is_field_value(
            encode_utf8(host),
        ),
        frames_plan(host, path).request() matches Some(content) ==> asks_for(
            content,
            "GET"@,
            parsed_uri(path)->0,
            host,
            Seq::empty(),
        ),
{
    let plan = frames_plan(host, path);
    a_plan_is_sent_as_it_is(plan);
    only_path_or_host_can_be_refused(host, HttpMethod::Get, path, false);
    lemma_lower_names();
    assert(plan.fields[0] == ("Host"@, host));
}

proof fn lemma_lower_names()
    ensures
        lower_case("Host"@) == "host"@,
        lower_case("Content-Type"@) == "content-type"@,
        lower_case("Accept"@) == "accept"@,
        lower_case("Cache-Control"@) == "cache-control"@,
{
    reveal_strlit("Host");
    reveal_strlit("host");
    reveal_strlit("Content-Type");
    reveal_strlit("content-type");
    reveal_strlit("Accept");
    reveal_strlit("accept");
    reveal_strlit("Cache-Control");
    reveal_strlit("cache-control");
    assert(lower_case("Host"@) =~= "host"@);
    assert(lower_case("Content-Type"@) =~= "content-type"@);
    assert(lower_case("Accept"@) =~= "accept"@);
    assert(lower_case("Cache-Control"@) =~= "cache-control"@);
}

} // verus!
