use libhttp3::{alpn_protocols, KEEP_ALIVE_INTERVAL, MAX_IDLE_TIMEOUT};

#[test]
fn several_pings_can_be_lost_before_the_connection_idles_out() {
    assert!(KEEP_ALIVE_INTERVAL * 3 < MAX_IDLE_TIMEOUT);
}

#[test]
fn both_ends_negotiate_h3() {
    assert_eq!(alpn_protocols(), vec![b"h3".to_vec()]);
}
