//! HTTP/3 client and server logic: length-prefixed binary frames, server-sent
//! events, request and response exchanges, connection set-up and shutdown.
//!
//! Everything here is free of I/O. The transport performs what these functions
//! ask for and hands back what it received.
pub mod client;
pub mod connect;
pub mod connect_laws;
pub mod event_fields;
pub mod event_laws;
pub mod event_lines;
pub mod event_wire;
pub mod exchange;
pub mod exchange_laws;
pub mod frame;
pub mod frame_laws;
pub mod header_laws;
pub mod identity;
pub mod outside;
pub mod request;
pub mod response;
pub mod server;
pub mod server_laws;
pub mod sse;
pub mod stream;
pub mod text;

use vstd::prelude::*;

pub use client::H3Client;
pub use response::H3Response;
pub use sse::{SseEvent, SseStream};

verus! {

/// Idle timeout advertised by both ends, in seconds. QUIC uses the lower of the two.
pub const MAX_IDLE_TIMEOUT: u64 = 60;

/// PING interval for an otherwise-idle connection, in seconds. Stays well under
/// [`MAX_IDLE_TIMEOUT`] so a lost PING is not fatal.
pub const KEEP_ALIVE_INTERVAL: u64 = 15;

/// The protocol that both ends negotiate.
pub fn alpn_protocols() -> (protocols: Vec<Vec<u8>>)
    ensures
        protocols@.len() == 1,
        protocols@[0]@ == seq![104u8, 51u8],
{
    let h3: Vec<u8> = vec![104u8, 51u8];
    assert(h3@ =~= seq![104u8, 51u8]);
    let mut protocols: Vec<Vec<u8>> = Vec::new();
    protocols.push(h3);
    protocols
}

/// Several PINGs can be lost before the connection idles out.
pub proof fn lost_pings_are_not_fatal()
    ensures
        KEEP_ALIVE_INTERVAL * 3 < MAX_IDLE_TIMEOUT,
{
}

} // verus!
