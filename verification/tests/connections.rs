use libhttp3::connect::{
    client_transport_settings, failure_text, select_address, server_authority,
    trust_certificates, trust_roots, validation_name, AddressFamily, ConnectAction, ConnectEvent,
    ConnectStep, Connecting, TrustError,
};
use libhttp3::server::transport_settings;

const CA: &str = "-----BEGIN CERTIFICATE-----\n\
MIIBcDCCARegAwIBAgIUbaoxzhjsVMBiw9mk4Jtx/ORYu1YwCgYIKoZIzj0EAwIw\n\
DTELMAkGA1UEAwwCY2EwIBcNMjYxMTE2MTU1NzM2WhgPMjEyNjEwMjMxNTU3MzZa\n\
MA0xCzAJBgNVBAMMAmNhMFkwEwYHKoZIzj0CAQYIKoZIzj0DAQcDQgAEfvzPVQZw\n\
CrqrvNYUnbutFtNGNSMn1eAsJpfHeymjMnyfSe0LahCZuKS6s3mtfqV3/sOfb6sR\n\
0ZI6tcGzxoq2CaNTMFEwHQYDVR0OBBYEFJcSFAwsvUGo8EDUX3O9hrlVLGhmMB8G\n\
A1UdIwQYMBaAFJcSFAwsvUGo8EDUX3O9hrlVLGhmMA8GA1UdEwEB/wQFMAMBAf8w\n\
CgYIKoZIzj0EAwIDRwAwRAIgaTCtbf1DCbZJwmT3OECA+dnjIX9CICYUEBpbDodv\n\
YUkCIHV5sFseUuB8HsYVws8Z7UXP4vf9h590PxNHKzkocKSe\n\
-----END CERTIFICATE-----\n";

#[test]
fn an_authority_is_a_name_and_a_port() {
    assert_eq!(server_authority("localhost", 4433), "localhost:4433");
    assert_eq!(server_authority("", 0), ":0");
    assert_eq!(server_authority("a.b", 65535), "a.b:65535");
}

#[test]
fn the_given_tls_name_is_validated() {
    assert_eq!(validation_name("10.0.0.1", Some("example.com")), "example.com");
    assert_eq!(validation_name("localhost", None), "localhost");
}

#[test]
fn the_first_ipv4_address_is_selected() {
    let (v4, v6) = (AddressFamily::V4, AddressFamily::V6);
    assert_eq!(select_address(&[v6, v4, v4]), Some(1));
    assert_eq!(select_address(&[v4]), Some(0));
    assert_eq!(select_address(&[v6, v6]), None);
    assert_eq!(select_address(&[]), None);
}

#[test]
fn every_ca_certificate_becomes_a_root() {
    assert_eq!(trust_roots(CA.as_bytes()).unwrap().roots.len(), 1);
    let two = format!("{CA}some text between\n{CA}");
    let store = trust_roots(two.as_bytes()).unwrap();
    assert_eq!(store.roots.len(), 2);
    assert_eq!(store.roots[0], store.roots[1]);
}

#[test]
fn a_file_without_certificates_gives_an_empty_store() {
    assert!(trust_roots(b"").unwrap().roots.is_empty());
    assert!(trust_roots(b"no certificates").unwrap().roots.is_empty());
}

#[test]
fn a_broken_pem_section_is_a_parse_error() {
    let broken = b"-----BEGIN CERTIFICATE-----\n!!!\n-----END CERTIFICATE-----\n";
    assert!(matches!(trust_roots(broken), Err(TrustError::Parse(_))));
    let open = b"-----BEGIN CERTIFICATE-----\nAQID\n";
    assert!(matches!(trust_roots(open), Err(TrustError::Parse(_))));
}

#[test]
fn a_certificate_that_is_none_cannot_be_added() {
    let odd = format!("{CA}-----BEGIN CERTIFICATE-----\nAQID\n-----END CERTIFICATE-----\n");
    assert!(matches!(
        trust_roots(odd.as_bytes()),
        Err(TrustError::Add(_))
    ));
    assert!(matches!(
        trust_certificates(&vec![vec![1, 2, 3]]),
        Err(TrustError::Add(_))
    ));
}

#[test]
fn each_step_reports_its_own_failure() {
    let server = "localhost:4433";
    assert_eq!(
        failure_text(ConnectStep::ReadCa, server),
        "Failed to read CA certificate"
    );
    assert_eq!(
        failure_text(ConnectStep::ParseCa, server),
        "Failed to parse CA certificate"
    );
    assert_eq!(
        failure_text(ConnectStep::AddCa, server),
        "Failed to add CA certificate to store"
    );
    assert_eq!(
        failure_text(ConnectStep::Resolve, server),
        "Failed to resolve server address: localhost:4433"
    );
    assert_eq!(
        failure_text(ConnectStep::SelectAddress, server),
        "No IPv4 addresses found for server"
    );
    assert_eq!(
        failure_text(ConnectStep::Establish, server),
        "Failed to establish QUIC connection"
    );
}

/// Sets up a connection to `localhost:4433`, up to where `steps` steps are done.
fn set_up(tls_server_name: Option<&str>, steps: usize) -> (Connecting, Option<ConnectAction>) {
    let mut connecting = Connecting::new("localhost", 4433, tls_server_name);
    let mut action = None;
    for step in 0..steps {
        action = Some(connecting.step(match step {
            0 => ConnectEvent::CaRead(CA.as_bytes()),
            2 => ConnectEvent::Resolved(&[AddressFamily::V6, AddressFamily::V4]),
            _ => ConnectEvent::Done,
        }));
    }
    (connecting, action)
}

#[test]
fn a_connection_is_set_up_step_by_step() {
    match set_up(None, 1).1 {
        Some(ConnectAction::Prepare { roots, settings }) => {
            assert_eq!(roots.roots.len(), 1);
            assert_eq!(settings.max_idle_timeout, 60);
        }
        _ => panic!("the endpoint is to be prepared"),
    }
    match set_up(None, 2).1 {
        Some(ConnectAction::Resolve(server)) => assert_eq!(server, "localhost:4433"),
        _ => panic!("the server is to be looked up"),
    }
    match set_up(None, 3).1 {
        Some(ConnectAction::Dial { index, name }) => {
            assert_eq!(index, 1);
            assert_eq!(name, "localhost");
        }
        _ => panic!("the server is to be dialed"),
    }
    assert!(matches!(
        set_up(None, 4).1,
        Some(ConnectAction::Establish)
    ));
    assert!(matches!(set_up(None, 5).1, Some(ConnectAction::Open)));
    match set_up(None, 6) {
        (mut connecting, Some(ConnectAction::Finish(client))) => {
            let call = client.get("/").unwrap();
            assert_eq!(call.head.headers().get("host").unwrap(), "localhost:4433");
            assert!(matches!(
                connecting.step(ConnectEvent::Done),
                ConnectAction::Unexpected
            ));
        }
        _ => panic!("the client is ready"),
    }
}

#[test]
fn another_tls_name_is_dialed_under() {
    match set_up(Some("example.com"), 3).1 {
        Some(ConnectAction::Dial { name, .. }) => assert_eq!(name, "example.com"),
        _ => panic!("the server is to be dialed"),
    }
}

#[test]
fn some_failures_have_a_report_of_their_own() {
    let reports = [
        Some("Failed to read CA certificate"),
        None,
        Some("Failed to resolve server address: localhost:4433"),
        None,
        Some("Failed to establish QUIC connection"),
        None,
    ];
    for (steps, expected) in reports.into_iter().enumerate() {
        let (mut connecting, _) = set_up(None, steps);
        match (connecting.step(ConnectEvent::Failed), expected) {
            (ConnectAction::Report(report), Some(text)) => assert_eq!(report, text),
            (ConnectAction::PassOn, None) => {}
            _ => panic!("step {steps}"),
        }
        assert!(matches!(
            connecting.step(ConnectEvent::Failed),
            ConnectAction::Unexpected
        ));
    }
}

#[test]
fn untrusted_certificates_end_the_set_up() {
    let mut connecting = Connecting::new("localhost", 4433, None);
    let open = b"-----BEGIN CERTIFICATE-----\nAQID\n";
    match connecting.step(ConnectEvent::CaRead(open)) {
        ConnectAction::Distrust { report, error } => {
            assert_eq!(report, "Failed to parse CA certificate");
            assert!(matches!(error, TrustError::Parse(_)));
        }
        _ => panic!("the file cannot be parsed"),
    }
    let mut connecting = Connecting::new("localhost", 4433, None);
    let odd = b"-----BEGIN CERTIFICATE-----\nAQID\n-----END CERTIFICATE-----\n";
    match connecting.step(ConnectEvent::CaRead(odd)) {
        ConnectAction::Distrust { report, error } => {
            assert_eq!(report, "Failed to add CA certificate to store");
            assert!(matches!(error, TrustError::Add(_)));
        }
        _ => panic!("the certificate cannot be used"),
    }
}

#[test]
fn a_server_without_ipv4_cannot_be_reached() {
    let (mut connecting, _) = set_up(None, 2);
    match connecting.step(ConnectEvent::Resolved(&[AddressFamily::V6])) {
        ConnectAction::NoAddress(report) => {
            assert_eq!(report, "No IPv4 addresses found for server")
        }
        _ => panic!("there is no address"),
    }
}

#[test]
fn an_early_report_changes_nothing() {
    let mut connecting = Connecting::new("localhost", 4433, None);
    assert!(matches!(
        connecting.step(ConnectEvent::Done),
        ConnectAction::Unexpected
    ));
    assert!(matches!(
        connecting.step(ConnectEvent::CaRead(b"")),
        ConnectAction::Prepare { .. }
    ));
}

#[test]
fn both_ends_advertise_the_same_idle_timeout() {
    assert_eq!(client_transport_settings().max_idle_timeout, 60);
    assert_eq!(
        client_transport_settings().max_idle_timeout,
        transport_settings().max_idle_timeout
    );
}
