use libhttp3::server::{
    close_signal, closes_connection, connection_result, connection_signal, handshake_failure,
    on_connection_event, on_server_event, transport_settings, CloseSignal, ConnectionAction,
    ConnectionEnd, ConnectionError, ConnectionEvent, EndReason, ServerAction, ServerEvent,
    SignalState,
};

#[test]
fn a_signal_reaches_every_open_connection() {
    let (handle, signal) = close_signal();
    let signal = Some(signal);
    let first = connection_signal(&signal).unwrap();
    let second = connection_signal(&signal).unwrap();
    assert!(!first.has_changed().unwrap());
    assert!(!second.has_changed().unwrap());
    handle.send(()).unwrap();
    assert!(first.has_changed().unwrap());
    assert!(second.has_changed().unwrap());
}

#[test]
fn a_past_signal_does_not_reach_a_new_connection() {
    let (handle, signal) = close_signal();
    let signal = Some(signal);
    handle.send(()).unwrap();
    assert!(signal.as_ref().unwrap().has_changed().unwrap());
    let own = connection_signal(&signal).unwrap();
    assert!(!own.has_changed().unwrap());
}

#[test]
fn a_signal_can_be_sent_again() {
    let (handle, signal) = close_signal();
    let signal = Some(signal);
    let first = connection_signal(&signal).unwrap();
    handle.send(()).unwrap();
    assert!(first.has_changed().unwrap());
    let second = connection_signal(&signal).unwrap();
    assert!(!second.has_changed().unwrap());
    handle.send(()).unwrap();
    assert!(second.has_changed().unwrap());
}

#[test]
fn no_signal_stays_no_signal() {
    assert!(connection_signal(&None).is_none());
    assert!(!closes_connection(SignalState::Absent));
}

#[test]
fn a_signal_that_nobody_can_send_closes_nothing() {
    let (handle, signal) = close_signal();
    let own = connection_signal(&Some(signal)).unwrap();
    drop(handle);
    assert!(own.has_changed().is_err());
    assert!(!closes_connection(SignalState::Abandoned));
    assert!(closes_connection(SignalState::Sent));
}

#[test]
fn requests_are_served_and_all_else_ends_the_connection() {
    assert_eq!(
        on_connection_event(ConnectionEvent::Request),
        ConnectionAction::Serve
    );
    assert_eq!(
        on_connection_event(ConnectionEvent::PeerClosed),
        ConnectionAction::Stop(EndReason::PeerClosed)
    );
    assert_eq!(
        on_connection_event(ConnectionEvent::Failed { graceful: true }),
        ConnectionAction::Stop(EndReason::GracefulClose)
    );
    assert_eq!(
        on_connection_event(ConnectionEvent::Failed { graceful: false }),
        ConnectionAction::Stop(EndReason::Error)
    );
}

#[test]
fn a_signal_closes_the_connection_without_an_error_code() {
    assert_eq!(
        on_connection_event(ConnectionEvent::Signalled),
        ConnectionAction::Close {
            code: 0,
            reason: EndReason::Signal
        }
    );
}

#[test]
fn a_server_limits_streams_and_not_early_data() {
    let settings = transport_settings();
    assert_eq!(settings.max_concurrent_bidi_streams, 100);
    assert_eq!(settings.max_concurrent_uni_streams, 100);
    assert_eq!(settings.max_idle_timeout, 60);
    assert_eq!(settings.keep_alive_interval, 15);
    assert_eq!(settings.max_early_data_size, 4294967295);
}

#[test]
fn a_failed_handshake_is_reported() {
    assert_eq!(
        handshake_failure("timed out"),
        "TLS handshake failed: timed out"
    );
}

/// The signal that the next connection of a server watches.
fn accepted(signal: &Option<CloseSignal>) -> Option<CloseSignal> {
    match on_server_event(signal, ServerEvent::Incoming) {
        ServerAction::Serve(own) => own,
        ServerAction::Stop => panic!("the connection is to be served"),
    }
}

#[test]
fn one_signal_is_seen_by_all_connections_and_the_server_listens_on() {
    let (handle, signal) = close_signal();
    let signal = Some(signal);
    let a = accepted(&signal).unwrap();
    let b = accepted(&signal).unwrap();
    handle.send(()).unwrap();
    assert!(a.has_changed().unwrap());
    assert!(b.has_changed().unwrap());
    let c = accepted(&signal).unwrap();
    assert!(!c.has_changed().unwrap());
    handle.send(()).unwrap();
    assert!(c.has_changed().unwrap());
}

#[test]
fn a_handle_reaches_its_own_server_only() {
    let (handle, signal) = close_signal();
    let (_other_handle, other) = close_signal();
    let own = accepted(&Some(signal)).unwrap();
    let foreign = accepted(&Some(other)).unwrap();
    handle.send(()).unwrap();
    assert!(own.has_changed().unwrap());
    assert!(!foreign.has_changed().unwrap());
}

#[test]
fn a_server_without_a_signal_serves_too() {
    assert!(accepted(&None).is_none());
}

#[test]
fn a_server_stops_with_its_endpoint() {
    assert!(matches!(
        on_server_event(&None, ServerEvent::EndpointClosed),
        ServerAction::Stop
    ));
}

#[test]
fn a_connection_fails_only_before_it_is_served() {
    match connection_result(ConnectionEnd::HandshakeFailed { detail: "timed out" }) {
        Err(ConnectionError::Handshake(report)) => {
            assert_eq!(report, "TLS handshake failed: timed out")
        }
        other => panic!("{other:?}"),
    }
    assert!(matches!(
        connection_result(ConnectionEnd::SetupFailed),
        Err(ConnectionError::Setup)
    ));
    let reasons = [
        EndReason::PeerClosed,
        EndReason::GracefulClose,
        EndReason::Error,
        EndReason::Signal,
    ];
    for reason in reasons {
        assert!(connection_result(ConnectionEnd::Served { reason }).is_ok());
    }
}
