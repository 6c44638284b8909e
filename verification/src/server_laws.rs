//! What holds of a server and all of its connections.
use vstd::prelude::*;

use crate::outside::past_is_seen;
use crate::server::{
    calls_for_close, is_reached, is_watch_for, listens_on, reaction, same_reach, CloseHandle,
    CloseSignal, ConnectionEvent, ServerEvent, SignalState,
};

verus! {

/// A server: its close signal, whether one has been sent on it, the signals that its open
/// connections watch, and whether it accepts connections.
#[verifier::ext_equal]
pub struct ServerState {
    pub signal: Option<CloseSignal>,
    pub fired: bool,
    pub open: Seq<Option<CloseSignal>>,
    pub listening: bool,
}

impl ServerState {
    /// Each connection watches a signal that the handles of the server reach.
    pub open spec fn wf(self) -> bool {
        forall|i: int|
            0 <= i < self.open.len() ==> same_reach(self.signal, #[trigger] self.open[i])
    }
}

/// What happens to a server and its connections.
pub enum ServingEvent {
    /// A connection is accepted, which watches `own`.
    Accepted { own: Option<CloseSignal> },
    /// A signal is sent through `handle` and seen by the connections that it reaches.
    SignalSent { handle: CloseHandle },
    /// Nobody is left who could send a signal, and the connections have seen that.
    Abandoned,
    /// An event happens on the connection at this place.
    Happened { index: int, event: ConnectionEvent },
    /// The connection at this place fails before it can be served.
    Failed { index: int },
    /// The endpoint accepts no more connections.
    EndpointClosed,
}

impl ServingEvent {
    /// Whether the event can happen to the server in `state`: a connection is accepted
    /// only while it listens, and watches a signal of the same reach.
    pub open spec fn fits(self, state: ServerState) -> bool {
        match self {
            ServingEvent::Accepted { own } => state.listening && same_reach(state.signal, own),
            ServingEvent::Happened { index, .. } => 0 <= index < state.open.len(),
            ServingEvent::Failed { index } => 0 <= index < state.open.len(),
            _ => true,
        }
    }
}

/// Whether a connection is over behind `event`.
pub open spec fn ends(event: ConnectionEvent) -> bool {
    !(reaction(event) is Serve)
}

/// What a connection that watches `own` knows of its signal when it is accepted, if one
/// has been sent before or has not; `None` if it waits for one.
pub open spec fn known_at_start(fired: bool, own: Option<CloseSignal>) -> Option<SignalState> {
    match own {
        None => Some(SignalState::Absent),
        Some(receiver) => if fired && !past_is_seen(receiver) {
            Some(SignalState::Sent)
        } else {
            None
        },
    }
}

/// Whether a connection that watches `own` is over as soon as it is accepted.
pub open spec fn ends_at_start(fired: bool, own: Option<CloseSignal>) -> bool {
    known_at_start(fired, own) matches Some(state) && calls_for_close(state) && ends(
        ConnectionEvent::Signalled,
    )
}

/// What a connection that watches `own` knows of its signal when one is sent through
/// `handle`; `None` if it goes on waiting.
pub open spec fn seen(handle: CloseHandle, own: Option<CloseSignal>) -> Option<SignalState> {
    if own is None {
        Some(SignalState::Absent)
    } else if is_reached(handle, own) {
        Some(SignalState::Sent)
    } else {
        None
    }
}

/// Whether a connection that watches `own` is over when a signal is sent through
/// `handle`.
pub open spec fn ends_on_signal(handle: CloseHandle, own: Option<CloseSignal>) -> bool {
    seen(handle, own) matches Some(state) && calls_for_close(state) && ends(
        ConnectionEvent::Signalled,
    )
}

/// A server behind one event.
pub open spec fn server_step(state: ServerState, event: ServingEvent) -> ServerState {
    match event {
        ServingEvent::Accepted { own } => ServerState {
            open: if ends_at_start(state.fired, own) {
                state.open
            } else {
                state.open.push(own)
            },
            listening: state.listening && listens_on(ServerEvent::Incoming),
            ..state
        },
        ServingEvent::SignalSent { handle } => ServerState {
            open: state.open.filter(|own: Option<CloseSignal>| !ends_on_signal(handle, own)),
            fired: state.fired || is_reached(handle, state.signal),
            ..state
        },
        ServingEvent::Abandoned => if calls_for_close(SignalState::Abandoned) {
            ServerState { open: Seq::empty(), ..state }
        } else {
            state
        },
        ServingEvent::Happened { index, event } => if ends(event) {
            ServerState { open: state.open.remove(index), ..state }
        } else {
            state
        },
        ServingEvent::Failed { index } => ServerState {
            open: state.open.remove(index),
            ..state
        },
        ServingEvent::EndpointClosed => ServerState {
            listening: state.listening && listens_on(ServerEvent::EndpointClosed),
            ..state
        },
    }
}

/// A server behind `events`, one after the other.
pub open spec fn server_run(state: ServerState, events: Seq<ServingEvent>) -> ServerState
    decreases events.len(),
{
    if events.len() == 0 {
        state
    } else {
        server_run(server_step(state, events[0]), events.skip(1))
    }
}

/// Whether each of `events` can happen when its turn comes.
pub open spec fn all_fit(state: ServerState, events: Seq<ServingEvent>) -> bool
    decreases events.len(),
{
    events.len() > 0 ==> events[0].fits(state) && all_fit(
        server_step(state, events[0]),
        events.skip(1),
    )
}

/// Whatever happens, every open connection watches a signal that the handles of the
/// server reach.
pub proof fn connections_stay_in_reach(state: ServerState, event: ServingEvent)
    requires
        state.wf(),
        event.fits(state),
    ensures
        server_step(state, event).wf(),
        server_step(state, event).signal == state.signal,
{
    let next = server_step(state, event);
    if let ServingEvent::SignalSent { handle } = event {
        let stays = |own: Option<CloseSignal>| !ends_on_signal(handle, own);
        lemma_rest_stays_in_reach(state.signal, state.open, stays);
        assert(next.open == state.open.filter(stays));
    }
}

proof fn lemma_rest_stays_in_reach(
    signal: Option<CloseSignal>,
    open: Seq<Option<CloseSignal>>,
    stays: spec_fn(Option<CloseSignal>) -> bool,
)
    requires
        forall|i: int| 0 <= i < open.len() ==> same_reach(signal, #[trigger] open[i]),
    ensures
        forall|i: int|
            0 <= i < open.filter(stays).len() ==> same_reach(
                signal,
                #[trigger] open.filter(stays)[i],
            ),
    decreases open.len(),
{
    reveal(Seq::filter);
    if open.len() > 0 {
        let others = open.drop_last();
        assert forall|i: int| 0 <= i < others.len() implies same_reach(
            signal,
            #[trigger] others[i],
        ) by {
            assert(others[i] == open[i]);
        }
        lemma_rest_stays_in_reach(signal, others, stays);
        assert(same_reach(signal, open.last()));
        assert forall|i: int| 0 <= i < open.filter(stays).len() implies same_reach(
            signal,
            #[trigger] open.filter(stays)[i],
        ) by {
            if i < others.filter(stays).len() {
                assert(open.filter(stays)[i] == others.filter(stays)[i]);
            }
        }
    }
}

proof fn lemma_reached_connections_end(open: Seq<Option<CloseSignal>>, handle: CloseHandle)
    requires
        forall|i: int| 0 <= i < open.len() ==> is_reached(handle, #[trigger] open[i]),
    ensures
        open.filter(|own: Option<CloseSignal>| !ends_on_signal(handle, own)).len() == 0,
    decreases open.len(),
{
    reveal(Seq::filter);
    if open.len() > 0 {
        let others = open.drop_last();
        assert forall|i: int| 0 <= i < others.len() implies is_reached(
            handle,
            #[trigger] others[i],
        ) by {
            assert(others[i] == open[i]);
        }
        lemma_reached_connections_end(others, handle);
        assert(is_reached(handle, open.last()));
    }
}

/// One signal ends every connection that is open, and the server listens on as before.
pub proof fn one_signal_ends_every_connection(state: ServerState, handle: CloseHandle)
    requires
        state.wf(),
        is_reached(handle, state.signal),
    ensures
        ({
            let next = server_step(state, ServingEvent::SignalSent { handle });
            &&& next.open.len() == 0
            &&& next.listening == state.listening
            &&& next.signal == state.signal
        }),
{
    assert forall|i: int| 0 <= i < state.open.len() implies is_reached(
        handle,
        #[trigger] state.open[i],
    ) by {
        assert(same_reach(state.signal, state.open[i]));
    }
    lemma_reached_connections_end(state.open, handle);
}

/// A connection that watches what it is to watch is open once it is accepted, whether or
/// not a signal was sent before, and the others stay as they are.
pub proof fn a_past_signal_ends_no_new_connection(state: ServerState, own: Option<CloseSignal>)
    requires
        state.listening,
        is_watch_for(state.signal, own),
    ensures
        server_step(state, ServingEvent::Accepted { own }).open == state.open.push(own),
{
}

/// A connection whose past is not seen would end at once for a signal of the past.
pub proof fn an_unseen_past_ends_a_connection(state: ServerState, receiver: CloseSignal)
    requires
        state.fired,
        !past_is_seen(receiver),
    ensures
        server_step(state, ServingEvent::Accepted { own: Some(receiver) }).open == state.open,
{
}

/// A connection that is accepted behind a signal is open, and the next signal ends it
/// too.
pub proof fn a_signal_can_be_sent_again(
    state: ServerState,
    handle: CloseHandle,
    own: Option<CloseSignal>,
)
    requires
        state.wf(),
        is_reached(handle, state.signal),
        state.listening,
        is_watch_for(state.signal, own),
    ensures
        ({
            let sent = ServingEvent::SignalSent { handle };
            let closed = server_step(state, sent);
            let served = server_step(closed, ServingEvent::Accepted { own });
            &&& closed.fired
            &&& served.open == seq![own]
            &&& server_step(served, sent).open.len() == 0
            &&& server_step(served, sent).listening
        }),
{
    let sent = ServingEvent::SignalSent { handle };
    let closed = server_step(state, sent);
    let accepted = ServingEvent::Accepted { own };
    let served = server_step(closed, accepted);
    one_signal_ends_every_connection(state, handle);
    connections_stay_in_reach(state, sent);
    connections_stay_in_reach(closed, accepted);
    a_past_signal_ends_no_new_connection(closed, own);
    assert(served.open =~= seq![own]);
    one_signal_ends_every_connection(served, handle);
}

/// Without a close signal no signal ends a connection.
pub proof fn without_a_signal_connections_stay(state: ServerState, handle: CloseHandle)
    requires
        state.wf(),
        state.signal is None,
    ensures
        server_step(state, ServingEvent::SignalSent { handle }) == state,
{
    let next = server_step(state, ServingEvent::SignalSent { handle });
    let stays = |own: Option<CloseSignal>| !ends_on_signal(handle, own);
    assert forall|i: int| 0 <= i < state.open.len() implies stays(#[trigger] state.open[i]) by {
        assert(same_reach(state.signal, state.open[i]));
    }
    lemma_all_stay(state.open, stays);
    assert(next.open == state.open);
}

proof fn lemma_all_stay(
    open: Seq<Option<CloseSignal>>,
    stays: spec_fn(Option<CloseSignal>) -> bool,
)
    requires
        forall|i: int| 0 <= i < open.len() ==> stays(#[trigger] open[i]),
    ensures
        open.filter(stays) == open,
    decreases open.len(),
{
    reveal(Seq::filter);
    if open.len() > 0 {
        let others = open.drop_last();
        assert forall|i: int| 0 <= i < others.len() implies stays(#[trigger] others[i]) by {
            assert(others[i] == open[i]);
        }
        lemma_all_stay(others, stays);
        assert(stays(open.last()));
        assert(others.push(open.last()) =~= open);
    } else {
        assert(open.filter(stays) =~= open);
    }
}

/// When nobody is left who could send a signal, every connection stays.
pub proof fn an_abandoned_signal_ends_nothing(state: ServerState)
    ensures
        server_step(state, ServingEvent::Abandoned) == state,
{
}

/// What happens on one connection ends no other.
pub proof fn connections_end_one_by_one(state: ServerState, index: int, event: ConnectionEvent)
    requires
        0 <= index < state.open.len(),
    ensures
        server_step(state, ServingEvent::Failed { index }).open == state.open.remove(index),
        server_step(state, ServingEvent::Happened { index, event }).open == if ends(event) {
            state.open.remove(index)
        } else {
            state.open
        },
{
}

/// A server listens until its endpoint is closed: no signal ends it, and no connection
/// that ends or fails.
pub proof fn only_its_endpoint_ends_a_server(state: ServerState, events: Seq<ServingEvent>)
    requires
        state.listening,
        forall|i: int| 0 <= i < events.len() ==> !(#[trigger] events[i] is EndpointClosed),
    ensures
        server_run(state, events).listening,
    decreases events.len(),
{
    if events.len() > 0 {
        assert(!(events[0] is EndpointClosed));
        let later = events.skip(1);
        assert forall|i: int| 0 <= i < later.len() implies !(
        #[trigger] later[i] is EndpointClosed) by {
            assert(later[i] == events[i + 1]);
        }
        only_its_endpoint_ends_a_server(server_step(state, events[0]), later);
    }
}

/// A server that begins to listen; a signal may have been sent before.
pub open spec fn started(signal: Option<CloseSignal>, fired: bool) -> ServerState {
    ServerState { signal, fired, open: Seq::empty(), listening: true }
}

/// Whatever has happened since the server began to listen, one signal ends every
/// connection that is open then, and a server that listens goes on listening.
pub proof fn a_signal_works_at_any_time(
    signal: CloseSignal,
    fired: bool,
    handle: CloseHandle,
    events: Seq<ServingEvent>,
)
    requires
        is_reached(handle, Some(signal)),
        all_fit(started(Some(signal), fired), events),
    ensures
        ({
            let state = server_run(started(Some(signal), fired), events);
            let next = server_step(state, ServingEvent::SignalSent { handle });
            &&& next.open.len() == 0
            &&& next.listening == state.listening
        }),
{
    let start = started(Some(signal), fired);
    lemma_run_stays_in_reach(start, events);
    one_signal_ends_every_connection(server_run(start, events), handle);
}

/// Whatever has happened and whatever signals were sent since the server began to listen,
/// a connection that is accepted then is open, and the first signal behind it ends it.
pub proof fn the_first_signal_behind_a_connection_ends_it(
    signal: CloseSignal,
    fired: bool,
    handle: CloseHandle,
    events: Seq<ServingEvent>,
    own: Option<CloseSignal>,
)
    requires
        is_reached(handle, Some(signal)),
        all_fit(started(Some(signal), fired), events),
        server_run(started(Some(signal), fired), events).listening,
        is_watch_for(Some(signal), own),
    ensures
        ({
            let state = server_run(started(Some(signal), fired), events);
            let served = server_step(state, ServingEvent::Accepted { own });
            let closed = server_step(served, ServingEvent::SignalSent { handle });
            &&& served.open == state.open.push(own)
            &&& closed.open.len() == 0
            &&& closed.listening
        }),
{
    let start = started(Some(signal), fired);
    let state = server_run(start, events);
    let accepted = ServingEvent::Accepted { own };
    lemma_run_stays_in_reach(start, events);
    a_past_signal_ends_no_new_connection(state, own);
    connections_stay_in_reach(state, accepted);
    one_signal_ends_every_connection(server_step(state, accepted), handle);
}

proof fn lemma_run_stays_in_reach(state: ServerState, events: Seq<ServingEvent>)
    requires
        state.wf(),
        all_fit(state, events),
    ensures
        server_run(state, events).wf(),
        server_run(state, events).signal == state.signal,
    decreases events.len(),
{
    if events.len() > 0 {
        connections_stay_in_reach(state, events[0]);
        lemma_run_stays_in_reach(server_step(state, events[0]), events.skip(1));
    }
}

} // verus!
