//! The certificate and the key with which a server identifies itself.
use vstd::prelude::*;
use vstd::utf8::encode_utf8;

use crate::outside::{pem_certificates, pem_private_key, read_certificates, read_private_key};

verus! {

/// The encoding of a private key.
#[derive(Debug, Clone, Copy, PartialEq, Eq)]
pub enum KeyFormat {
    Pkcs1,
    Sec1,
    Pkcs8,
    /// An encoding that has no name here.
    Other,
}

/// A private key.
pub struct PrivateKey {
    pub format: KeyFormat,
    pub der: Vec<u8>,
}

/// What a server identifies itself with.
pub struct ServerIdentity {
    /// The certificate.
    pub certificate: Vec<u8>,
    /// The key that belongs to it.
    pub key: PrivateKey,
}

/// Why a server has no identity.
#[derive(Debug)]
pub enum IdentityError {
    /// The certificates cannot be read.
    Certificates(std::io::Error),
    /// There is no certificate.
    NoCertificate,
    /// The key cannot be read.
    Key(std::io::Error),
    /// There is no key.
    NoKey,
}

impl IdentityError {
    /// What is wrong, where no other error lies behind it.
    pub fn reason(&self) -> (text: Option<&'static str>)
        ensures
            match self {
                IdentityError::NoCertificate => text matches Some(t) && t@
                    == "No certificate found in file"@,
                IdentityError::NoKey => text matches Some(t) && t@
                    == "No private key found in file"@,
                _ => text is None,
            },
    {
        match self {
            IdentityError::NoCertificate => Some("No certificate found in file"),
            IdentityError::NoKey => Some("No private key found in file"),
            _ => None,
        }
    }
}

/// Takes the first of the certificates that were found, and the key. What is wrong
/// with the certificates is reported first.
pub fn identity_from(
    certificates: Result<Vec<Vec<u8>>, std::io::Error>,
    key: Result<Option<PrivateKey>, std::io::Error>,
) -> (result: Result<ServerIdentity, IdentityError>)
    ensures
        match certificates {
            Err(e) => result == Err::<ServerIdentity, IdentityError>(
                IdentityError::Certificates(e),
            ),
            Ok(found) => if found@.len() == 0 {
                result == Err::<ServerIdentity, IdentityError>(IdentityError::NoCertificate)
            } else {
                match key {
                    Err(e) => result == Err::<ServerIdentity, IdentityError>(IdentityError::Key(e)),
                    Ok(None) => result == Err::<ServerIdentity, IdentityError>(
                        IdentityError::NoKey,
                    ),
                    Ok(Some(k)) => result == Ok::<ServerIdentity, IdentityError>(
                        ServerIdentity { certificate: found@[0], key: k },
                    ),
                }
            },
        },
{
    let mut found = match certificates {
        Ok(found) => found,
        Err(e) => {
            return Err(IdentityError::Certificates(e));
        },
    };
    if found.is_empty() {
        return Err(IdentityError::NoCertificate);
    }
    let certificate = found.swap_remove(0);
    match key {
        Ok(Some(key)) => Ok(ServerIdentity { certificate, key }),
        Ok(None) => Err(IdentityError::NoKey),
        Err(e) => Err(IdentityError::Key(e)),
    }
}

/// Whether `result` is the identity that the certificates and the key of two PEM files
/// make up: the first of the certificates, and the key. What is wrong with the
/// certificates comes before what is wrong with the key.
pub open spec fn is_identity(
    result: Result<ServerIdentity, IdentityError>,
    certificates: Option<Seq<Seq<u8>>>,
    key: Option<Option<(KeyFormat, Seq<u8>)>>,
) -> bool {
    match certificates {
        None => result matches Err(IdentityError::Certificates(_)),
        Some(found) => if found.len() == 0 {
            result matches Err(IdentityError::NoCertificate)
        } else {
            match key {
                None => result matches Err(IdentityError::Key(_)),
                Some(None) => result matches Err(IdentityError::NoKey),
                Some(Some((format, der))) => result matches Ok(identity)
                    && identity.certificate@ == found[0] && identity.key.format == format
                    && identity.key.der@ == der,
            }
        },
    }
}

/// There is an identity exactly if there is a certificate and a key, and it is made of the
/// first certificate, however many there are, and of the whole key.
pub proof fn an_identity_is_the_first_certificate_and_the_key(
    result: Result<ServerIdentity, IdentityError>,
    certificates: Option<Seq<Seq<u8>>>,
    key: Option<Option<(KeyFormat, Seq<u8>)>>,
)
    requires
        is_identity(result, certificates, key),
    ensures
        result is Ok <==> certificates is Some && certificates->0.len() > 0 && key is Some
            && key->0 is Some,
        result matches Ok(identity) ==> {
            &&& certificates->0.len() > 0
            &&& identity.certificate@ == certificates->0.first()
            &&& key == Some(Some((identity.key.format, identity.key.der@)))
        },
        result matches Err(error) ==> match error {
            IdentityError::Certificates(_) => certificates is None,
            IdentityError::NoCertificate => certificates matches Some(found) && found.len() == 0,
            IdentityError::Key(_) => certificates is Some && certificates->0.len() > 0
                && key is None,
            IdentityError::NoKey => certificates is Some && certificates->0.len() > 0 && key
                is Some && key->0 is None,
        },
{
}

/// Takes the first certificate and the first private key out of two PEM files.
pub fn server_identity(certificate_pem: &str, key_pem: &str) -> (result: Result<
    ServerIdentity,
    IdentityError,
>)
    ensures
        is_identity(
            result,
            pem_certificates(encode_utf8(certificate_pem@)),
            pem_private_key(encode_utf8(key_pem@)),
        ),
        match pem_certificates(encode_utf8(certificate_pem@)) {
            None => result matches Err(IdentityError::Certificates(_)),
            Some(certificates) => if certificates.len() == 0 {
                result matches Err(IdentityError::NoCertificate)
            } else {
                match pem_private_key(encode_utf8(key_pem@)) {
                    None => result matches Err(IdentityError::Key(_)),
                    Some(None) => result matches Err(IdentityError::NoKey),
                    Some(Some((format, der))) => result matches Ok(identity)
                        && identity.certificate@ == certificates[0] && identity.key.format
                        == format && identity.key.der@ == der,
                }
            },
        },
{
    identity_from(
        read_certificates(certificate_pem.as_bytes()),
        read_private_key(key_pem.as_bytes()),
    )
}

} // verus!
