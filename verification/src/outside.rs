//! What is taken on trust: contracts of functions that are not verified here.
use vstd::prelude::*;
use vstd::utf8::{decode_utf8, encode_utf8, valid_utf8};

use crate::request::{is_field_name, is_field_value, HttpMethod, RequestContent};
use crate::identity::{KeyFormat, PrivateKey};
use crate::response::is_visible;
use crate::text::{
    ascii_end, ascii_text, before_ascii_end, decimal, lower_case, trimmed, trimmed_end,
    trimmed_start,
};

verus! {

/// `str::trim_start`: drops the leading characters that have the Unicode property
/// `White_Space`, and nothing else.
pub assume_specification[ str::trim_start ](s: &str) -> (r: &str)
    ensures
        r@ == trimmed_start(s@),
;

/// `str::trim_end`: drops the trailing characters that have the Unicode property
/// `White_Space`, and nothing else.
pub assume_specification[ str::trim_end ](s: &str) -> (r: &str)
    ensures
        r@ == trimmed_end(s@),
;

/// `str::trim`: drops the leading and the trailing characters that have the Unicode
/// property `White_Space`, and nothing else.
pub assume_specification[ str::trim ](s: &str) -> (r: &str)
    ensures
        r@ == trimmed(s@),
;

/// `str::strip_prefix` with a string as the pattern: what follows `prefix`, or `None`
/// where `s` does not start with it.
#[verifier::external_body]
pub(crate) fn strip_prefix<'a>(s: &'a str, prefix: &str) -> (r: Option<&'a str>)
    ensures
        match r {
            Some(rest) => s@ == prefix@ + rest@,
            None => !prefix@.is_prefix_of(s@),
        },
{
    s.strip_prefix(prefix)
}

/// The characters that `String::from_utf8_lossy` makes of bytes that are not valid
/// UTF-8 and do not end in ASCII.
pub uninterp spec fn lossy_chars(bytes: Seq<u8>) -> Seq<char>;

/// `String::from_utf8_lossy`: the text of valid UTF-8; of other bytes the text with
/// replacement characters in the place of what is invalid. ASCII is never part of what
/// is invalid, so ASCII at the end is kept as it is; of what comes before it
/// [`lossy_chars`] names the text and does not describe it.
#[verifier::external_body]
pub(crate) fn from_utf8_lossy(bytes: &[u8]) -> (s: String)
    ensures
        s@ == if valid_utf8(bytes@) {
            decode_utf8(bytes@)
        } else {
            lossy_chars(before_ascii_end(bytes@)) + ascii_text(ascii_end(bytes@))
        },
{
    String::from_utf8_lossy(bytes).into_owned()
}

#[verifier::external_type_specification]
#[verifier::external_body]
pub struct ExRequestBuilder(http::request::Builder);

#[verifier::external_type_specification]
#[verifier::external_body]
#[verifier::reject_recursive_types(T)]
pub struct ExRequest<T>(http::Request<T>);

#[verifier::external_type_specification]
#[verifier::external_body]
pub struct ExHttpError(http::Error);

/// What a request builder has collected so far: the method, the URI and the header
/// fields; `None` once a part has been refused.
pub uninterp spec fn builder_content(builder: http::request::Builder) -> Option<RequestContent>;

/// What a request holds: the method, the URI and the header fields.
pub uninterp spec fn request_content(request: http::Request<()>) -> RequestContent;

/// The text of the `http::Uri` that is parsed from `text`; `None` where the parser
/// refuses it.
pub uninterp spec fn parsed_uri(text: Seq<char>) -> Option<Seq<char>>;

/// `http::Request::builder`: a builder for a `GET` of `/` without header fields.
#[verifier::external_body]
pub(crate) fn request_builder() -> (builder: http::request::Builder)
    ensures
        builder_content(builder) == Some(
            RequestContent { method: "GET"@, uri: "/"@, headers: Seq::empty() },
        ),
{
    http::Request::builder()
}

/// `http::request::Builder::method`: sets the method. A builder that has refused a
/// part stays as it is.
#[verifier::external_body]
pub(crate) fn with_method(builder: http::request::Builder, method: &str) -> (next:
    http::request::Builder)
    requires
        exists|m: HttpMethod| #[trigger] m.token() == method@,
    ensures
        builder_content(next) == match builder_content(builder) {
            Some(content) => Some(RequestContent { method: method@, ..content }),
            None => None,
        },
{
    builder.method(method)
}

/// `http::request::Builder::uri`: parses `uri` and sets it, or refuses it. A builder
/// that has refused a part stays as it is.
#[verifier::external_body]
pub(crate) fn with_uri(builder: http::request::Builder, uri: &str) -> (next:
    http::request::Builder)
    ensures
        builder_content(next) == match (builder_content(builder), parsed_uri(uri@)) {
            (Some(content), Some(text)) => Some(RequestContent { uri: text, ..content }),
            _ => None,
        },
{
    builder.uri(uri)
}

/// `http::request::Builder::header` with a name of letters and hyphens: adds a field
/// with the name in lower case, or refuses the value if one of its bytes is a control
/// character other than a tab. A builder that has refused a part stays as it is.
#[verifier::external_body]
pub(crate) fn with_header(builder: http::request::Builder, name: &str, value: &str) -> (next:
    http::request::Builder)
    requires
        is_field_name(name@),
        builder_content(builder) matches Some(content) ==> content.headers.len() < 16 && forall|
            i: int,
        |
            0 <= i < content.headers.len() ==> (#[trigger] content.headers[i]).0 != lower_case(
                name@,
            ),
    ensures
        builder_content(next) == match builder_content(builder) {
            Some(content) => if is_field_value(encode_utf8(value@)) {
                Some(
                    RequestContent {
                        headers: content.headers.push((lower_case(name@), encode_utf8(value@))),
                        ..content
                    },
                )
            } else {
                None
            },
            None => None,
        },
{
    builder.header(name, value)
}

/// `http::request::Builder::body` with an empty body: the request that the builder
/// has collected, or the error for the first part that it refused.
#[verifier::external_body]
pub(crate) fn built_request(builder: http::request::Builder) -> (result: Result<
    http::Request<()>,
    http::Error,
>)
    ensures
        match builder_content(builder) {
            Some(content) => result matches Ok(request) && request_content(request) == content,
            None => result is Err,
        },
{
    builder.body(())
}

#[verifier::external_type_specification]
#[verifier::external_body]
#[verifier::reject_recursive_types(T)]
pub struct ExHeaderMap<T>(http::HeaderMap<T>);

#[verifier::external_type_specification]
#[verifier::external_body]
pub struct ExHeaderValue(http::HeaderValue);

/// The fields of a header map, name and value, in the order in which it hands them
/// out.
pub uninterp spec fn header_fields(headers: http::HeaderMap<http::HeaderValue>) -> Seq<
    (Seq<char>, Seq<u8>),
>;

/// The bytes of a header value.
pub uninterp spec fn value_bytes(value: http::HeaderValue) -> Seq<u8>;

/// `http::HeaderMap::iter`: every field of the map, once for each of its values.
#[verifier::external_body]
pub(crate) fn fields_of(headers: &http::HeaderMap<http::HeaderValue>) -> (fields: Vec<
    (String, http::HeaderValue),
>)
    ensures
        fields@.len() == header_fields(*headers).len(),
        forall|i: int|
            0 <= i < fields@.len() ==> (#[trigger] fields@[i]).0@ == header_fields(*headers)[i].0
                && value_bytes(fields@[i].1) == header_fields(*headers)[i].1,
{
    headers.iter().map(|(name, value)| (name.as_str().to_owned(), value.clone())).collect()
}

/// `http::HeaderValue::to_str`: the text of a value that consists of visible ASCII
/// characters, spaces and tabs; `None` for any other value.
#[verifier::external_body]
pub(crate) fn value_to_str(value: &http::HeaderValue) -> (text: Option<String>)
    ensures
        match text {
            Some(t) => is_visible(value_bytes(*value)) && t@ == ascii_text(value_bytes(*value)),
            None => !is_visible(value_bytes(*value)),
        },
{
    value.to_str().ok().map(str::to_owned)
}

/// `str::eq_ignore_ascii_case`: whether both are the same but for the case of their
/// ASCII letters.
pub assume_specification[ str::eq_ignore_ascii_case ](s: &str, other: &str) -> (same: bool)
    ensures
        same == (lower_case(s@) == lower_case(other@)),
;

#[verifier::external_type_specification]
#[verifier::external_body]
pub struct ExBytes(bytes::Bytes);

/// The bytes that a `bytes::Bytes` holds.
pub uninterp spec fn bytes_content(bytes: bytes::Bytes) -> Seq<u8>;

/// `From<Vec<u8>>` of `bytes::Bytes`: takes over the bytes of the vector.
#[verifier::external_body]
pub(crate) fn bytes_from_vec(data: Vec<u8>) -> (bytes: bytes::Bytes)
    ensures
        bytes_content(bytes) == data@,
{
    bytes::Bytes::from(data)
}

/// `bytes::Bytes::copy_from_slice`: a copy of the bytes of the slice.
#[verifier::external_body]
pub(crate) fn bytes_copy(data: &[u8]) -> (bytes: bytes::Bytes)
    ensures
        bytes_content(bytes) == data@,
{
    bytes::Bytes::copy_from_slice(data)
}

/// The phrase that `http::StatusCode::canonical_reason` gives for a code, if it
/// knows one.
pub uninterp spec fn canonical_reason(code: u16) -> Option<Seq<char>>;

/// `Display` of `http::StatusCode`: the number and the canonical reason, or a remark
/// in its place that the code is not known.
#[verifier::external_body]
pub(crate) fn status_line(code: u16) -> (text: String)
    requires
        100 <= code <= 999,
    ensures
        text@ == decimal(code as nat) + " "@ + match canonical_reason(code) {
            Some(reason) => reason,
            None => "<unknown status code>"@,
        },
{
    http::StatusCode::from_u16(code).unwrap().to_string()
}

#[verifier::external_type_specification]
#[verifier::external_body]
pub struct ExIoError(std::io::Error);

#[verifier::external_type_specification]
#[verifier::external_body]
pub struct ExTlsError(rustls::Error);

#[verifier::external_type_specification]
#[verifier::external_body]
pub struct ExRootCertStore(rustls::RootCertStore);

/// The certificates in the PEM sections of `pem`, in order; `None` where a section
/// cannot be read.
pub uninterp spec fn pem_certificates(pem: Seq<u8>) -> Option<Seq<Seq<u8>>>;

/// The first private key in the PEM sections of `pem`, if there is one; `None` where
/// a section before it cannot be read.
pub uninterp spec fn pem_private_key(pem: Seq<u8>) -> Option<Option<(KeyFormat, Seq<u8>)>>;

/// What `rustls` keeps of a root certificate: its subject, its public key and its name
/// constraints; `None` where the certificate cannot be parsed.
pub uninterp spec fn trust_anchor(certificate: Seq<u8>) -> Option<
    (Seq<u8>, Seq<u8>, Option<Seq<u8>>),
>;

/// The trust anchors that a root store holds, in the order in which they came.
pub uninterp spec fn store_anchors(store: rustls::RootCertStore) -> Seq<
    (Seq<u8>, Seq<u8>, Option<Seq<u8>>),
>;

/// `rustls_pemfile::certs` on bytes in memory: all certificates, or the first error.
#[verifier::external_body]
pub(crate) fn read_certificates(pem: &[u8]) -> (result: Result<Vec<Vec<u8>>, std::io::Error>)
    ensures
        match pem_certificates(pem@) {
            Some(certificates) => result matches Ok(found) && found@.len() == certificates.len()
                && forall|i: int|
                0 <= i < certificates.len() ==> (#[trigger] found@[i])@ == certificates[i],
            None => result is Err,
        },
{
    let mut reader = pem;
    rustls_pemfile::certs(&mut reader).map(|item| item.map(|der| der.to_vec())).collect()
}

/// `rustls_pemfile::private_key` on bytes in memory: the first private key, if there
/// is one, or an error.
#[verifier::external_body]
pub(crate) fn read_private_key(pem: &[u8]) -> (result: Result<Option<PrivateKey>, std::io::Error>)
    ensures
        match pem_private_key(pem@) {
            Some(Some((format, der))) => result matches Ok(Some(key)) && key.format == format
                && key.der@ == der,
            Some(None) => result matches Ok(None),
            None => result is Err,
        },
{
    let mut reader = pem;
    let found = rustls_pemfile::private_key(&mut reader)?;
    Ok(found.map(|key| {
        let format = match &key {
            rustls::pki_types::PrivateKeyDer::Pkcs1(_) => KeyFormat::Pkcs1,
            rustls::pki_types::PrivateKeyDer::Sec1(_) => KeyFormat::Sec1,
            rustls::pki_types::PrivateKeyDer::Pkcs8(_) => KeyFormat::Pkcs8,
            _ => KeyFormat::Other,
        };
        PrivateKey { format, der: key.secret_der().to_vec() }
    }))
}

/// `rustls::RootCertStore::empty`: a store without trust anchors.
#[verifier::external_body]
pub(crate) fn empty_store() -> (store: rustls::RootCertStore)
    ensures
        store_anchors(store) == Seq::<(Seq<u8>, Seq<u8>, Option<Seq<u8>>)>::empty(),
{
    rustls::RootCertStore::empty()
}

/// `rustls::RootCertStore::add`: adds the trust anchor of a certificate behind those
/// that are there, or leaves the store as it is if the certificate cannot be parsed.
#[verifier::external_body]
pub(crate) fn add_certificate(store: &mut rustls::RootCertStore, certificate: Vec<u8>) -> (result:
    Result<(), rustls::Error>)
    ensures
        match trust_anchor(certificate@) {
            Some(anchor) => result is Ok && store_anchors(*final(store)) == store_anchors(
                *old(store),
            ).push(anchor),
            None => result is Err && store_anchors(*final(store)) == store_anchors(*old(store)),
        },
{
    store.add(rustls::pki_types::CertificateDer::from(certificate))
}

#[verifier::external_type_specification]
#[verifier::external_body]
#[verifier::reject_recursive_types(T)]
pub struct ExWatchSender<T>(tokio::sync::watch::Sender<T>);

#[verifier::external_type_specification]
#[verifier::external_body]
#[verifier::reject_recursive_types(T)]
pub struct ExWatchReceiver<T>(tokio::sync::watch::Receiver<T>);

/// Whether what is sent through `sender` reaches `receiver`: both belong to the same
/// channel.
pub uninterp spec fn reaches(
    sender: tokio::sync::watch::Sender<()>,
    receiver: tokio::sync::watch::Receiver<()>,
) -> bool;

/// Whether all that had been sent when `receiver` was cloned, or last marked, counts as
/// seen by it.
pub uninterp spec fn past_is_seen(receiver: tokio::sync::watch::Receiver<()>) -> bool;

/// `tokio::sync::watch::Receiver::clone`: another receiver of the same channel. What
/// it will see depends on what is sent meanwhile, and is left open.
#[verifier::external_body]
pub(crate) fn another_receiver(receiver: &tokio::sync::watch::Receiver<()>) -> (other:
    tokio::sync::watch::Receiver<()>)
    ensures
        forall|sender: tokio::sync::watch::Sender<()>| #[trigger]
            reaches(sender, other) == reaches(sender, *receiver),
{
    receiver.clone()
}

/// `tokio::sync::watch::Receiver::borrow_and_update`: marks all that has been sent so
/// far as seen; the receiver stays with its channel. How much that is rests with the
/// senders, and is left open.
#[verifier::external_body]
pub(crate) fn mark_seen(receiver: &mut tokio::sync::watch::Receiver<()>)
    ensures
        past_is_seen(*final(receiver)),
        forall|sender: tokio::sync::watch::Sender<()>| #[trigger]
            reaches(sender, *final(receiver)) == reaches(sender, *old(receiver)),
{
    receiver.borrow_and_update();
}

} // verus!
