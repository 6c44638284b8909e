//! The server: its transport settings, and when a connection is served or closed.
use vstd::prelude::*;

use crate::outside::{another_receiver, mark_seen, past_is_seen, reaches};
use crate::{KEEP_ALIVE_INTERVAL, MAX_IDLE_TIMEOUT};

verus! {

/// The sending half of a close signal.
pub type CloseHandle = tokio::sync::watch::Sender<()>;

/// The receiving half of a close signal.
pub type CloseSignal = tokio::sync::watch::Receiver<()>;

/// Creates a linked [`CloseHandle`]/[`CloseSignal`] pair.
///
/// `tokio::sync::watch::channel` makes the pair: both halves belong to the same channel.
#[verifier::external_body]
pub fn close_signal() -> (pair: (CloseHandle, CloseSignal))
    ensures
        reaches(pair.0, pair.1),
{
    tokio::sync::watch::channel(())
}

/// Whether `handle` reaches a connection that watches `signal`, if it watches one.
pub open spec fn is_reached(handle: CloseHandle, signal: Option<CloseSignal>) -> bool {
    signal matches Some(receiver) && reaches(handle, receiver)
}

/// Whether `own` is reached by the same handles as `signal`; without a signal there is
/// none.
pub open spec fn same_reach(signal: Option<CloseSignal>, own: Option<CloseSignal>) -> bool {
    &&& signal is Some == (own is Some)
    &&& forall|handle: CloseHandle| #[trigger]
        is_reached(handle, own) == is_reached(handle, signal)
}

/// Whether `own` is what a new connection is to watch on a server with `signal`: the same
/// handles reach it, and what was sent before is seen.
pub open spec fn is_watch_for(signal: Option<CloseSignal>, own: Option<CloseSignal>) -> bool {
    &&& same_reach(signal, own)
    &&& own matches Some(receiver) ==> past_is_seen(receiver)
}

/// The signal that a new connection is to watch: that of the server, if it has one, with
/// everything that was sent before the connection marked as seen. The same handles reach
/// both.
pub fn connection_signal(signal: &Option<CloseSignal>) -> (own: Option<CloseSignal>)
    ensures
        is_watch_for(*signal, own),
{
    match signal {
        Some(receiver) => {
            let mut own = another_receiver(receiver);
            mark_seen(&mut own);
            assert forall|handle: CloseHandle| #[trigger]
                is_reached(handle, Some(own)) == is_reached(handle, *signal) by {
                assert(reaches(handle, own) == reaches(handle, *receiver));
            }
            Some(own)
        },
        None => None,
    }
}

/// What a server that listens hears of: nothing of what becomes of its connections.
#[derive(Debug, Clone, Copy, PartialEq, Eq)]
pub enum ServerEvent {
    /// A client wants to connect.
    Incoming,
    /// The endpoint accepts no more connections.
    EndpointClosed,
}

/// What a server does about an event.
pub enum ServerAction {
    /// Serve the connection, which watches this signal, and listen on.
    Serve(Option<CloseSignal>),
    /// Stop listening, without an error.
    Stop,
}

/// Whether a server listens on behind `event`.
pub open spec fn listens_on(event: ServerEvent) -> bool {
    !(event is EndpointClosed)
}

/// What a server with this close signal does about an event. It stops when no more
/// connections can be accepted, and for nothing else.
pub fn on_server_event(signal: &Option<CloseSignal>, event: ServerEvent) -> (action: ServerAction)
    ensures
        match action {
            ServerAction::Serve(own) => event is Incoming && is_watch_for(*signal, own),
            ServerAction::Stop => event is EndpointClosed,
        },
        action is Stop == !listens_on(event),
{
    match event {
        ServerEvent::Incoming => ServerAction::Serve(connection_signal(signal)),
        ServerEvent::EndpointClosed => ServerAction::Stop,
    }
}

/// What a connection knows of its close signal.
#[derive(Debug, Clone, Copy, PartialEq, Eq)]
pub enum SignalState {
    /// The server has no close signal.
    Absent,
    /// A signal was sent since the connection began.
    Sent,
    /// Nobody is left who could send one.
    Abandoned,
}

/// Whether a connection is to be closed for the state of its signal.
pub open spec fn calls_for_close(state: SignalState) -> bool {
    state is Sent
}

/// Whether a connection is to be closed for the state of its signal. If not, it
/// waits no more for a signal.
pub fn closes_connection(state: SignalState) -> (closes: bool)
    ensures
        closes == calls_for_close(state),
{
    match state {
        SignalState::Sent => true,
        SignalState::Absent => false,
        SignalState::Abandoned => false,
    }
}

/// What happens on a connection.
#[derive(Debug, Clone, Copy, PartialEq, Eq)]
pub enum ConnectionEvent {
    /// A request has arrived.
    Request,
    /// The peer has closed the connection.
    PeerClosed,
    /// No more requests can be accepted; `graceful` if the peer meant to end here.
    Failed { graceful: bool },
    /// The close signal calls for the connection to be closed.
    Signalled,
}

/// Why a connection is no longer served.
#[derive(Debug, Clone, Copy, PartialEq, Eq)]
pub enum EndReason {
    PeerClosed,
    GracefulClose,
    Error,
    Signal,
}

/// What to do about an event.
#[derive(Debug, Clone, Copy, PartialEq, Eq)]
pub enum ConnectionAction {
    /// Serve the request and wait for the next event.
    Serve,
    /// Leave the connection as it is and stop.
    Stop(EndReason),
    /// Close the connection with this application error code and an empty reason, and
    /// stop.
    Close { code: u32, reason: EndReason },
}

/// What to do about an event.
pub open spec fn reaction(event: ConnectionEvent) -> ConnectionAction {
    match event {
        ConnectionEvent::Request => ConnectionAction::Serve,
        ConnectionEvent::PeerClosed => ConnectionAction::Stop(EndReason::PeerClosed),
        ConnectionEvent::Failed { graceful: true } => ConnectionAction::Stop(
            EndReason::GracefulClose,
        ),
        ConnectionEvent::Failed { graceful: false } => ConnectionAction::Stop(EndReason::Error),
        ConnectionEvent::Signalled => ConnectionAction::Close {
            code: 0,
            reason: EndReason::Signal,
        },
    }
}

/// What to do about an event.
pub fn on_connection_event(event: ConnectionEvent) -> (action: ConnectionAction)
    ensures
        action == reaction(event),
{
    match event {
        ConnectionEvent::Request => ConnectionAction::Serve,
        ConnectionEvent::PeerClosed => ConnectionAction::Stop(EndReason::PeerClosed),
        ConnectionEvent::Failed { graceful } => {
            if graceful {
                ConnectionAction::Stop(EndReason::GracefulClose)
            } else {
                ConnectionAction::Stop(EndReason::Error)
            }
        },
        ConnectionEvent::Signalled => ConnectionAction::Close {
            code: 0,
            reason: EndReason::Signal,
        },
    }
}

/// The number of requests that a connection serves as `events` happen one after the
/// other: those before the first event that ends it.
pub open spec fn requests_served(events: Seq<ConnectionEvent>) -> nat
    decreases events.len(),
{
    if events.len() > 0 && reaction(events[0]) is Serve {
        1 + requests_served(events.skip(1))
    } else {
        0
    }
}

/// A connection is closed from this side on a signal, and for no other reason.
pub proof fn only_a_signal_closes_a_connection(event: ConnectionEvent)
    ensures
        reaction(event) is Close <==> event is Signalled,
{
}

/// Why a connection is no longer served tells what has happened: whether the peer has
/// closed it, whether it has failed and how, or whether a signal was sent. On a signal it
/// is closed without an error code.
pub proof fn reactions_tell_what_has_happened(event: ConnectionEvent)
    ensures
        reaction(event) is Serve <==> event is Request,
        match event {
            ConnectionEvent::Request => true,
            ConnectionEvent::PeerClosed => reaction(event) == ConnectionAction::Stop(
                EndReason::PeerClosed,
            ),
            ConnectionEvent::Failed { graceful } => reaction(event) == ConnectionAction::Stop(
                if graceful {
                    EndReason::GracefulClose
                } else {
                    EndReason::Error
                },
            ),
            ConnectionEvent::Signalled => reaction(event) matches ConnectionAction::Close {
                code,
                reason,
            } && code == 0 && reason is Signal,
        },
{
}

/// A signal that was sent calls for a connection to be closed, and neither the want of a
/// signal nor the want of anybody to send one does.
pub proof fn only_a_sent_signal_calls_for_close(state: SignalState)
    ensures
        calls_for_close(state) <==> state is Sent,
        !calls_for_close(SignalState::Absent),
        !calls_for_close(SignalState::Abandoned),
{
}

/// Every request that arrives before the connection ends is served, and none behind.
pub proof fn requests_are_served_until_the_end(
    requests: Seq<ConnectionEvent>,
    end: ConnectionEvent,
    later: Seq<ConnectionEvent>,
)
    requires
        forall|i: int| 0 <= i < requests.len() ==> #[trigger] requests[i] is Request,
        !(end is Request),
    ensures
        requests_served(requests.push(end) + later) == requests.len(),
    decreases requests.len(),
{
    let events = requests.push(end) + later;
    if requests.len() > 0 {
        assert(requests[0] is Request);
        assert(events.skip(1) =~= requests.skip(1).push(end) + later);
        requests_are_served_until_the_end(requests.skip(1), end, later);
    }
}

/// How a server configures its side of the transport.
#[derive(Debug, Clone, Copy, PartialEq, Eq)]
pub struct TransportSettings {
    /// The number of concurrent requests on a connection.
    pub max_concurrent_bidi_streams: u32,
    /// The number of concurrent unidirectional streams on a connection.
    pub max_concurrent_uni_streams: u32,
    /// After how many seconds without traffic a connection is given up.
    pub max_idle_timeout: u64,
    /// After how many seconds without traffic a PING is sent.
    pub keep_alive_interval: u64,
    /// The amount of early data that clients may send.
    pub max_early_data_size: u32,
}

/// How a server configures its side of the transport. Early data is not limited:
/// it can be replayed, so only requests that may be repeated should rely on it.
pub fn transport_settings() -> (settings: TransportSettings)
    ensures
        settings == (TransportSettings {
            max_concurrent_bidi_streams: 100,
            max_concurrent_uni_streams: 100,
            max_idle_timeout: MAX_IDLE_TIMEOUT,
            keep_alive_interval: KEEP_ALIVE_INTERVAL,
            max_early_data_size: u32::MAX,
        }),
{
    TransportSettings {
        max_concurrent_bidi_streams: 100,
        max_concurrent_uni_streams: 100,
        max_idle_timeout: MAX_IDLE_TIMEOUT,
        keep_alive_interval: KEEP_ALIVE_INTERVAL,
        max_early_data_size: u32::MAX,
    }
}

/// What is reported when the handshake with a client fails.
pub open spec fn handshake_report(detail: Seq<char>) -> Seq<char> {
    "TLS handshake failed: "@ + detail
}

/// The report of a failed handshake ends with the whole reason.
pub proof fn a_handshake_report_ends_with_the_reason(detail: Seq<char>)
    ensures
        ({
            let text = handshake_report(detail);
            let n = text.len() - detail.len();
            &&& n >= 0
            &&& text.take(n) == "TLS handshake failed: "@
            &&& text.skip(n) == detail
        }),
{
    let text = handshake_report(detail);
    let n = text.len() - detail.len();
    assert(text.take(n) =~= "TLS handshake failed: "@);
    assert(text.skip(n) =~= detail);
}

/// What is reported when the handshake with a client fails.
pub fn handshake_failure(detail: &str) -> (text: String)
    ensures
        text@ == handshake_report(detail@),
        text@ == "TLS handshake failed: "@ + detail@,
{
    let mut text = "TLS handshake failed: ".to_owned();
    text.append(detail);
    text
}

/// How a connection has ended.
pub enum ConnectionEnd<'a> {
    /// The handshake has failed, for this reason.
    HandshakeFailed { detail: &'a str },
    /// HTTP/3 could not be set up on the connection.
    SetupFailed,
    /// The connection was served until this.
    Served { reason: EndReason },
}

/// Why a connection counts as failed.
#[derive(Debug)]
pub enum ConnectionError {
    /// The handshake has failed, with this report.
    Handshake(String),
    /// The set-up of HTTP/3 has failed, with the error of the transport as it is.
    Setup,
}

/// Whether `result` is that of a connection that has ended so.
pub open spec fn is_result_of(
    end: ConnectionEnd<'_>,
    result: Result<(), ConnectionError>,
) -> bool {
    match end {
        ConnectionEnd::HandshakeFailed { detail } => result matches Err(
            ConnectionError::Handshake(report),
        ) && report@ == handshake_report(detail@),
        ConnectionEnd::SetupFailed => result matches Err(ConnectionError::Setup),
        ConnectionEnd::Served { .. } => result is Ok,
    }
}

/// A connection has failed exactly if it was never served, and the error tells what has
/// failed.
pub proof fn a_connection_fails_only_before_it_is_served(
    end: ConnectionEnd<'_>,
    result: Result<(), ConnectionError>,
)
    requires
        is_result_of(end, result),
    ensures
        result is Ok <==> end is Served,
        result matches Err(ConnectionError::Setup) <==> end is SetupFailed,
        end matches ConnectionEnd::HandshakeFailed { detail } ==> (result matches Err(
            ConnectionError::Handshake(report),
        ) && report@ == "TLS handshake failed: "@ + detail@),
{
}

/// Whether a connection that has ended counts as a success. It does once it has been
/// served, however it ended; it has failed if it was never set up.
pub fn connection_result(end: ConnectionEnd<'_>) -> (result: Result<(), ConnectionError>)
    ensures
        is_result_of(end, result),
        match end {
            ConnectionEnd::HandshakeFailed { detail } => result matches Err(
                ConnectionError::Handshake(report),
            ) && report@ == "TLS handshake failed: "@ + detail@,
            ConnectionEnd::SetupFailed => result matches Err(ConnectionError::Setup),
            ConnectionEnd::Served { .. } => result is Ok,
        },
{
    match end {
        ConnectionEnd::HandshakeFailed { detail } => {
            Err(ConnectionError::Handshake(handshake_failure(detail)))
        },
        ConnectionEnd::SetupFailed => Err(ConnectionError::Setup),
        ConnectionEnd::Served { .. } => Ok(()),
    }
}

} // verus!
