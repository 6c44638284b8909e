use libhttp3::identity::{
    identity_from, server_identity, IdentityError, KeyFormat, PrivateKey, ServerIdentity,
};

fn section(label: &str, content: &str) -> String {
    format!("-----BEGIN {label}-----\n{content}\n-----END {label}-----\n")
}

fn error(result: Result<ServerIdentity, IdentityError>) -> IdentityError {
    match result {
        Ok(_) => panic!("there is no identity"),
        Err(error) => error,
    }
}

#[test]
fn the_first_certificate_and_the_first_key_are_taken() {
    let certificates = format!(
        "{}{}",
        section("CERTIFICATE", "AQID"),
        section("CERTIFICATE", "BAUG")
    );
    let keys = format!(
        "{}{}{}",
        section("CERTIFICATE", "AQID"),
        section("PRIVATE KEY", "BwgJ"),
        section("EC PRIVATE KEY", "CgsM")
    );
    let identity = match server_identity(&certificates, &keys) {
        Ok(identity) => identity,
        Err(e) => panic!("{e:?}"),
    };
    assert_eq!(identity.certificate, vec![1, 2, 3]);
    assert_eq!(identity.key.format, KeyFormat::Pkcs8);
    assert_eq!(identity.key.der, vec![7, 8, 9]);
}

#[test]
fn keys_come_in_three_encodings() {
    let certificate = section("CERTIFICATE", "AQID");
    let cases = [
        ("PRIVATE KEY", KeyFormat::Pkcs8),
        ("RSA PRIVATE KEY", KeyFormat::Pkcs1),
        ("EC PRIVATE KEY", KeyFormat::Sec1),
    ];
    for (label, format) in cases {
        match server_identity(&certificate, &section(label, "CgsM")) {
            Ok(identity) => {
                assert_eq!(identity.key.format, format);
                assert_eq!(identity.key.der, vec![10, 11, 12]);
            }
            Err(e) => panic!("{e:?}"),
        }
    }
}

#[test]
fn a_file_without_certificates_is_reported() {
    let error = error(server_identity("", &section("PRIVATE KEY", "BwgJ")));
    assert!(matches!(error, IdentityError::NoCertificate));
    assert_eq!(error.reason(), Some("No certificate found in file"));
}

#[test]
fn a_file_without_keys_is_reported() {
    let certificate = section("CERTIFICATE", "AQID");
    let error = error(server_identity(&certificate, &certificate));
    assert!(matches!(error, IdentityError::NoKey));
    assert_eq!(error.reason(), Some("No private key found in file"));
}

#[test]
fn broken_sections_are_reported() {
    let broken = section("CERTIFICATE", "!!!");
    let key = section("PRIVATE KEY", "BwgJ");
    let found = error(server_identity(&broken, &key));
    assert!(matches!(found, IdentityError::Certificates(_)));
    assert_eq!(found.reason(), None);
    let certificate = section("CERTIFICATE", "AQID");
    let found = error(server_identity(&certificate, &section("PRIVATE KEY", "!!!")));
    assert!(matches!(found, IdentityError::Key(_)));
    assert_eq!(found.reason(), None);
}

#[test]
fn what_is_wrong_with_the_certificates_comes_first() {
    assert!(matches!(
        error(server_identity("", "")),
        IdentityError::NoCertificate
    ));
    let failed = || std::io::Error::other("unreadable");
    assert!(matches!(
        error(identity_from(Err(failed()), Err(failed()))),
        IdentityError::Certificates(_)
    ));
    assert!(matches!(
        error(identity_from(Ok(vec![vec![1]]), Err(failed()))),
        IdentityError::Key(_)
    ));
}

#[test]
fn an_identity_is_made_of_what_was_found() {
    let key = PrivateKey {
        format: KeyFormat::Sec1,
        der: vec![9],
    };
    match identity_from(Ok(vec![vec![1], vec![2], vec![3]]), Ok(Some(key))) {
        Ok(identity) => {
            assert_eq!(identity.certificate, vec![1]);
            assert_eq!(identity.key.format, KeyFormat::Sec1);
            assert_eq!(identity.key.der, vec![9]);
        }
        Err(e) => panic!("{e:?}"),
    }
}
