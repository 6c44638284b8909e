//! Setting up a connection to a server.
use vstd::prelude::*;

use crate::client::H3Client;
use crate::outside::{
    add_certificate, empty_store, pem_certificates, read_certificates, store_anchors, trust_anchor,
};
use crate::text::{decimal, decimal_reads_back, optional_text, push_decimal, writes};
use crate::MAX_IDLE_TIMEOUT;

verus! {

/// A server's name and port, with a colon between them.
pub open spec fn authority(name: Seq<char>, port: u16) -> Seq<char> {
    name + ":"@ + decimal(port as nat)
}

/// Whether `text` names the server and its port: the name, a colon, and behind it, with
/// no colon among them, the digits of the port.
pub open spec fn names_server(text: Seq<char>, name: Seq<char>, port: u16) -> bool {
    &&& text.len() > name.len() + 1
    &&& text.take(name.len() as int) == name
    &&& text[name.len() as int] == ':'
    &&& forall|i: int| name.len() < i < text.len() ==> #[trigger] text[i] != ':'
    &&& writes(text.skip(name.len() as int + 1), port as int)
}

/// For every name and every port, what stands before the last colon is the name and what
/// stands behind it reads as the port.
pub proof fn an_authority_names_the_server(name: Seq<char>, port: u16)
    ensures
        names_server(authority(name, port), name, port),
{
    reveal_strlit(":");
    let text = authority(name, port);
    let digits = decimal(port as nat);
    decimal_reads_back(port as nat);
    assert(text.take(name.len() as int) =~= name);
    assert(text.skip(name.len() as int + 1) =~= digits);
    assert forall|i: int| name.len() < i < text.len() implies #[trigger] text[i] != ':' by {
        assert(text[i] == digits[i - name.len() - 1]);
    }
}

/// A server's name and port, with a colon between them.
pub fn server_authority(name: &str, port: u16) -> (text: String)
    ensures
        text@ == authority(name@, port),
        names_server(text@, name@, port),
{
    proof {
        an_authority_names_the_server(name@, port);
    }
    let mut text = name.to_owned();
    text.append(":");
    push_decimal(&mut text, port as u64);
    text
}

/// The name that the server's certificate must bear: `tls_name` where it is given, else
/// the server's own.
pub open spec fn certificate_name(name: Seq<char>, tls_name: Option<Seq<char>>) -> Seq<char> {
    match tls_name {
        Some(given) => given,
        None => name,
    }
}

/// The name that the server's certificate must bear: `tls_server_name` where it is
/// given, else the server's own.
pub fn validation_name<'a>(server_name: &'a str, tls_server_name: Option<&'a str>) -> (name:
    &'a str)
    ensures
        name@ == certificate_name(
            server_name@,
            match tls_server_name {
                Some(given) => Some(given@),
                None => None,
            },
        ),
{
    match tls_server_name {
        Some(given) => given,
        None => server_name,
    }
}

/// The family of an address.
#[derive(Debug, Clone, Copy, PartialEq, Eq)]
pub enum AddressFamily {
    V4,
    V6,
}

/// The index of the first address of IPv4, if there is one.
pub open spec fn first_v4(families: Seq<AddressFamily>) -> Option<int>
    decreases families.len(),
{
    if families.len() == 0 {
        None
    } else if families[0] is V4 {
        Some(0)
    } else {
        match first_v4(families.skip(1)) {
            Some(i) => Some(i + 1),
            None => None,
        }
    }
}

proof fn lemma_first_v4(families: Seq<AddressFamily>, n: int)
    requires
        0 <= n <= families.len(),
        forall|j: int| 0 <= j < n ==> !(#[trigger] families[j] is V4),
        n < families.len() ==> families[n] is V4,
    ensures
        first_v4(families) == if n < families.len() {
            Some(n)
        } else {
            None
        },
    decreases n,
{
    if n > 0 {
        assert(!(families[0] is V4));
        lemma_first_v4(families.skip(1), n - 1);
    }
}

/// Which of the addresses of a server to connect to: the first one of IPv4, if any.
pub fn select_address(families: &[AddressFamily]) -> (index: Option<usize>)
    ensures
        match index {
            Some(i) => first_v4(families@) == Some(i as int) && i < families@.len()
                && families@[i as int] is V4 && forall|j: int|
                0 <= j < i ==> !(#[trigger] families@[j] is V4),
            None => first_v4(families@) is None && forall|j: int|
                0 <= j < families@.len() ==> !(#[trigger] families@[j] is V4),
        },
{
    let mut i: usize = 0;
    while i < families.len()
        invariant
            i <= families@.len(),
            forall|j: int| 0 <= j < i ==> !(#[trigger] families@[j] is V4),
        decreases families@.len() - i,
    {
        match families[i] {
            AddressFamily::V4 => {
                proof {
                    lemma_first_v4(families@, i as int);
                }
                return Some(i);
            },
            AddressFamily::V6 => {},
        }
        i = i + 1;
    }
    proof {
        lemma_first_v4(families@, i as int);
    }
    None
}

/// Why the certificates of a server cannot be trusted.
#[derive(Debug)]
pub enum TrustError {
    /// The file with the CA certificates cannot be parsed.
    Parse(std::io::Error),
    /// One of the certificates is not a usable root.
    Add(rustls::Error),
}

/// What each of `certificates` is trusted for; `None` if one of them is not usable.
pub open spec fn anchors_of(certificates: Seq<Seq<u8>>) -> Option<
    Seq<(Seq<u8>, Seq<u8>, Option<Seq<u8>>)>,
>
    decreases certificates.len(),
{
    if certificates.len() == 0 {
        Some(Seq::empty())
    } else {
        match (anchors_of(certificates.drop_last()), trust_anchor(certificates.last())) {
            (Some(anchors), Some(anchor)) => Some(anchors.push(anchor)),
            _ => None,
        }
    }
}

proof fn lemma_unusable_certificate(certificates: Seq<Seq<u8>>, n: int)
    requires
        0 <= n <= certificates.len(),
        anchors_of(certificates.take(n)) is None,
    ensures
        anchors_of(certificates) is None,
    decreases certificates.len() - n,
{
    if n < certificates.len() {
        assert(certificates.take(n + 1).drop_last() =~= certificates.take(n));
        lemma_unusable_certificate(certificates, n + 1);
    } else {
        assert(certificates.take(n) =~= certificates);
    }
}

/// The root store for these certificates: all of them, or none if one cannot be used.
pub fn trust_certificates(certificates: &Vec<Vec<u8>>) -> (result: Result<
    rustls::RootCertStore,
    TrustError,
>)
    ensures
        match anchors_of(Seq::new(certificates@.len(), |i: int| certificates@[i]@)) {
            Some(anchors) => result matches Ok(store) && store_anchors(store) == anchors,
            None => result matches Err(TrustError::Add(_)),
        },
{
    let ghost all = Seq::new(certificates@.len(), |i: int| certificates@[i]@);
    let mut store = empty_store();
    let mut i: usize = 0;
    assert(all.take(0) =~= Seq::empty());
    while i < certificates.len()
        invariant
            i <= certificates@.len(),
            all == Seq::new(certificates@.len(), |i: int| certificates@[i]@),
            anchors_of(all.take(i as int)) == Some(store_anchors(store)),
        decreases certificates@.len() - i,
    {
        proof {
            assert(all.take(i + 1).drop_last() =~= all.take(i as int));
            assert(all.take(i + 1).last() == certificates@[i as int]@);
        }
        match add_certificate(&mut store, certificates[i].clone()) {
            Ok(_) => {},
            Err(e) => {
                proof {
                    lemma_unusable_certificate(all, i + 1);
                }
                return Err(TrustError::Add(e));
            },
        }
        i = i + 1;
    }
    assert(all.take(all.len() as int) =~= all);
    Ok(store)
}

/// The root store for a file of CA certificates: all of them, or none if one cannot
/// be used.
pub fn trust_roots(ca_pem: &[u8]) -> (result: Result<rustls::RootCertStore, TrustError>)
    ensures
        match pem_certificates(ca_pem@) {
            None => result matches Err(TrustError::Parse(_)),
            Some(certificates) => match anchors_of(certificates) {
                Some(anchors) => result matches Ok(store) && store_anchors(store) == anchors,
                None => result matches Err(TrustError::Add(_)),
            },
        },
{
    match read_certificates(ca_pem) {
        Ok(found) => {
            assert(Seq::new(found@.len(), |i: int| found@[i]@) =~= pem_certificates(ca_pem@)->0);
            trust_certificates(&found)
        },
        Err(e) => Err(TrustError::Parse(e)),
    }
}

/// A step of setting up a connection.
#[derive(Debug, Clone, Copy, PartialEq, Eq)]
pub enum ConnectStep {
    ReadCa,
    ParseCa,
    AddCa,
    Resolve,
    SelectAddress,
    Establish,
}

/// What is reported when a step of setting up a connection to `server` fails.
pub open spec fn failure(step: ConnectStep, server: Seq<char>) -> Seq<char> {
    match step {
        ConnectStep::ReadCa => "Failed to read CA certificate"@,
        ConnectStep::ParseCa => "Failed to parse CA certificate"@,
        ConnectStep::AddCa => "Failed to add CA certificate to store"@,
        ConnectStep::Resolve => "Failed to resolve server address: "@ + server,
        ConnectStep::SelectAddress => "No IPv4 addresses found for server"@,
        ConnectStep::Establish => "Failed to establish QUIC connection"@,
    }
}

/// What is reported when a step of setting up a connection to `server` fails.
pub fn failure_text(step: ConnectStep, server: &str) -> (text: String)
    ensures
        text@ == failure(step, server@),
{
    match step {
        ConnectStep::ReadCa => "Failed to read CA certificate".to_owned(),
        ConnectStep::ParseCa => "Failed to parse CA certificate".to_owned(),
        ConnectStep::AddCa => "Failed to add CA certificate to store".to_owned(),
        ConnectStep::Resolve => {
            let mut text = "Failed to resolve server address: ".to_owned();
            text.append(server);
            text
        },
        ConnectStep::SelectAddress => "No IPv4 addresses found for server".to_owned(),
        ConnectStep::Establish => "Failed to establish QUIC connection".to_owned(),
    }
}

/// How a client configures its side of the transport.
#[derive(Debug, Clone, Copy, PartialEq, Eq)]
pub struct ClientTransportSettings {
    /// After how many seconds without traffic a connection is given up.
    pub max_idle_timeout: u64,
}

/// How a client configures its side of the transport: it advertises the same idle
/// timeout as a server.
pub fn client_transport_settings() -> (settings: ClientTransportSettings)
    ensures
        settings == (ClientTransportSettings { max_idle_timeout: MAX_IDLE_TIMEOUT }),
{
    ClientTransportSettings { max_idle_timeout: MAX_IDLE_TIMEOUT }
}

/// The server that a connection is set up to.
#[verifier::ext_equal]
pub struct Target {
    /// The name of the server.
    pub name: Seq<char>,
    /// Its port.
    pub port: u16,
    /// The name that its certificate must bear, if that is another one.
    pub tls_name: Option<Seq<char>>,
}

/// How far the set-up of a connection has come: what is being done for it.
#[derive(Debug, Clone, Copy, PartialEq, Eq)]
pub enum ConnectStage {
    /// The file with the CA certificates is being read.
    ReadingCa,
    /// The local endpoint is being prepared.
    Preparing,
    /// The addresses of the server are being looked up.
    Resolving,
    /// The connection is being started.
    Dialing,
    /// The handshake with the server is under way.
    Establishing,
    /// HTTP/3 is being set up on the connection.
    Opening,
    /// The caller has got an answer.
    Over,
}

/// What the transport has done.
pub enum ConnectEvent<'a> {
    /// It has read the file with the CA certificates.
    CaRead(&'a [u8]),
    /// It has found addresses of these families, in this order.
    Resolved(&'a [AddressFamily]),
    /// It has done anything else that it was told to.
    Done,
    /// It could not do what it was told to.
    Failed,
}

/// What a [`ConnectEvent`] holds.
pub enum ConnectInput {
    CaRead(Seq<u8>),
    Resolved(Seq<AddressFamily>),
    Done,
    Failed,
}

impl<'a> View for ConnectEvent<'a> {
    type V = ConnectInput;

    open spec fn view(&self) -> ConnectInput {
        match self {
            ConnectEvent::CaRead(bytes) => ConnectInput::CaRead(bytes@),
            ConnectEvent::Resolved(families) => ConnectInput::Resolved(families@),
            ConnectEvent::Done => ConnectInput::Done,
            ConnectEvent::Failed => ConnectInput::Failed,
        }
    }
}

/// What is to be done next.
pub enum ConnectAction {
    /// Prepare an endpoint with these settings that trusts these roots and no others.
    Prepare { roots: rustls::RootCertStore, settings: ClientTransportSettings },
    /// Look up the addresses behind this name and port.
    Resolve(String),
    /// Start a connection to the address with this index, whose certificate must bear
    /// this name.
    Dial { index: usize, name: String },
    /// Wait until the connection is established.
    Establish,
    /// Set up HTTP/3 on the connection.
    Open,
    /// Hand the client to the caller.
    Finish(H3Client),
    /// Give up, with this report in front of the error of the transport.
    Report(String),
    /// Give up, with the error of the transport as it is.
    PassOn,
    /// Give up for want of trust, with this report in front of the error.
    Distrust { report: String, error: TrustError },
    /// Give up with this report alone.
    NoAddress(String),
    /// The event does not belong to what was asked for; nothing has changed.
    Unexpected,
}

/// What a [`ConnectAction`] holds.
pub enum ConnectOutcome {
    Prepare {
        anchors: Seq<(Seq<u8>, Seq<u8>, Option<Seq<u8>>)>,
        settings: ClientTransportSettings,
    },
    Resolve(Seq<char>),
    Dial { index: int, name: Seq<char> },
    Establish,
    Open,
    Finish { host: Seq<char> },
    Report(Seq<char>),
    PassOn,
    Distrust { report: Seq<char>, parsed: bool },
    NoAddress(Seq<char>),
    Unexpected,
}

impl ConnectAction {
    /// Whether `self` is what `outcome` asks for.
    pub open spec fn performs(self, outcome: ConnectOutcome) -> bool {
        match self {
            ConnectAction::Prepare { roots, settings } => outcome == (ConnectOutcome::Prepare {
                anchors: store_anchors(roots),
                settings,
            }),
            ConnectAction::Resolve(server) => outcome == ConnectOutcome::Resolve(server@),
            ConnectAction::Dial { index, name } => outcome == (ConnectOutcome::Dial {
                index: index as int,
                name: name@,
            }),
            ConnectAction::Establish => outcome is Establish,
            ConnectAction::Open => outcome is Open,
            ConnectAction::Finish(client) => outcome == (ConnectOutcome::Finish {
                host: client@,
            }),
            ConnectAction::Report(report) => outcome == ConnectOutcome::Report(report@),
            ConnectAction::PassOn => outcome is PassOn,
            ConnectAction::Distrust { report, error } => outcome == (ConnectOutcome::Distrust {
                report: report@,
                parsed: error is Add,
            }),
            ConnectAction::NoAddress(report) => outcome == ConnectOutcome::NoAddress(report@),
            ConnectAction::Unexpected => outcome is Unexpected,
        }
    }
}

/// What becomes of a file of CA certificates.
pub open spec fn on_ca(server: Seq<char>, ca_pem: Seq<u8>) -> (ConnectStage, ConnectOutcome) {
    match pem_certificates(ca_pem) {
        None => (
            ConnectStage::Over,
            ConnectOutcome::Distrust {
                report: failure(ConnectStep::ParseCa, server),
                parsed: false,
            },
        ),
        Some(certificates) => match anchors_of(certificates) {
            None => (
                ConnectStage::Over,
                ConnectOutcome::Distrust {
                    report: failure(ConnectStep::AddCa, server),
                    parsed: true,
                },
            ),
            Some(anchors) => (
                ConnectStage::Preparing,
                ConnectOutcome::Prepare {
                    anchors,
                    settings: ClientTransportSettings { max_idle_timeout: MAX_IDLE_TIMEOUT },
                },
            ),
        },
    }
}

/// What becomes of the addresses of a server.
pub open spec fn on_addresses(
    target: Target,
    families: Seq<AddressFamily>,
) -> (ConnectStage, ConnectOutcome) {
    match first_v4(families) {
        Some(index) => (
            ConnectStage::Dialing,
            ConnectOutcome::Dial { index, name: certificate_name(target.name, target.tls_name) },
        ),
        None => (
            ConnectStage::Over,
            ConnectOutcome::NoAddress(
                failure(ConnectStep::SelectAddress, authority(target.name, target.port)),
            ),
        ),
    }
}

/// What becomes of a failure of the transport. Where it has a report of its own, the
/// report comes first.
pub open spec fn on_failure(stage: ConnectStage, server: Seq<char>) -> ConnectOutcome {
    match stage {
        ConnectStage::ReadingCa => ConnectOutcome::Report(failure(ConnectStep::ReadCa, server)),
        ConnectStage::Resolving => ConnectOutcome::Report(failure(ConnectStep::Resolve, server)),
        ConnectStage::Establishing => ConnectOutcome::Report(
            failure(ConnectStep::Establish, server),
        ),
        ConnectStage::Over => ConnectOutcome::Unexpected,
        _ => ConnectOutcome::PassOn,
    }
}

/// One turn of setting up a connection.
pub open spec fn connect_step(
    target: Target,
    stage: ConnectStage,
    input: ConnectInput,
) -> (ConnectStage, ConnectOutcome) {
    let server = authority(target.name, target.port);
    match (stage, input) {
        (ConnectStage::ReadingCa, ConnectInput::CaRead(ca_pem)) => on_ca(server, ca_pem),
        (ConnectStage::Preparing, ConnectInput::Done) => (
            ConnectStage::Resolving,
            ConnectOutcome::Resolve(server),
        ),
        (ConnectStage::Resolving, ConnectInput::Resolved(families)) => on_addresses(
            target,
            families,
        ),
        (ConnectStage::Dialing, ConnectInput::Done) => (
            ConnectStage::Establishing,
            ConnectOutcome::Establish,
        ),
        (ConnectStage::Establishing, ConnectInput::Done) => (
            ConnectStage::Opening,
            ConnectOutcome::Open,
        ),
        (ConnectStage::Opening, ConnectInput::Done) => (
            ConnectStage::Over,
            ConnectOutcome::Finish { host: server },
        ),
        (_, ConnectInput::Failed) => (ConnectStage::Over, on_failure(stage, server)),
        _ => (stage, ConnectOutcome::Unexpected),
    }
}

/// A connection that is being set up. It starts with the file of CA certificates being
/// read; the transport reports what it has done, and [`Connecting::step`] says what
/// comes next.
#[derive(Debug)]
pub struct Connecting {
    server_name: String,
    server_port: u16,
    tls_server_name: Option<String>,
    stage: ConnectStage,
}

impl View for Connecting {
    type V = ConnectStage;

    closed spec fn view(&self) -> ConnectStage {
        self.stage
    }
}

impl Connecting {
    /// The server that the connection is set up to.
    pub closed spec fn target(self) -> Target {
        Target {
            name: self.server_name@,
            port: self.server_port,
            tls_name: optional_text(self.tls_server_name),
        }
    }

    /// A connection for which the file of CA certificates is being read.
    pub fn new(server_name: &str, server_port: u16, tls_server_name: Option<&str>) -> (connecting:
        Connecting)
        ensures
            connecting@ is ReadingCa,
            connecting.target() == (Target {
                name: server_name@,
                port: server_port,
                tls_name: match tls_server_name {
                    Some(given) => Some(given@),
                    None => None,
                },
            }),
    {
        Connecting {
            server_name: server_name.to_owned(),
            server_port,
            tls_server_name: match tls_server_name {
                Some(given) => Some(given.to_owned()),
                None => None,
            },
            stage: ConnectStage::ReadingCa,
        }
    }

    /// Takes in what the transport has done and says what comes next.
    pub fn step(&mut self, event: ConnectEvent<'_>) -> (action: ConnectAction)
        ensures
            final(self).target() == old(self).target(),
            final(self)@ == connect_step(old(self).target(), old(self)@, event@).0,
            action.performs(connect_step(old(self).target(), old(self)@, event@).1),
    {
        let server = server_authority(self.server_name.as_str(), self.server_port);
        match (self.stage, event) {
            (ConnectStage::ReadingCa, ConnectEvent::CaRead(ca_pem)) => {
                let (stage, action) = answer_ca(server.as_str(), ca_pem);
                self.stage = stage;
                action
            },
            (ConnectStage::Preparing, ConnectEvent::Done) => {
                self.stage = ConnectStage::Resolving;
                ConnectAction::Resolve(server)
            },
            (ConnectStage::Resolving, ConnectEvent::Resolved(families)) => {
                match select_address(families) {
                    Some(index) => {
                        self.stage = ConnectStage::Dialing;
                        ConnectAction::Dial { index, name: self.name_to_validate() }
                    },
                    None => {
                        self.stage = ConnectStage::Over;
                        ConnectAction::NoAddress(
                            failure_text(ConnectStep::SelectAddress, server.as_str()),
                        )
                    },
                }
            },
            (ConnectStage::Dialing, ConnectEvent::Done) => {
                self.stage = ConnectStage::Establishing;
                ConnectAction::Establish
            },
            (ConnectStage::Establishing, ConnectEvent::Done) => {
                self.stage = ConnectStage::Opening;
                ConnectAction::Open
            },
            (ConnectStage::Opening, ConnectEvent::Done) => {
                self.stage = ConnectStage::Over;
                ConnectAction::Finish(H3Client::new(self.server_name.as_str(), self.server_port))
            },
            (stage, ConnectEvent::Failed) => {
                self.stage = ConnectStage::Over;
                answer_failure(stage, server.as_str())
            },
            _ => ConnectAction::Unexpected,
        }
    }

    fn name_to_validate(&self) -> (name: String)
        ensures
            name@ == certificate_name(self.target().name, self.target().tls_name),
    {
        let given = match &self.tls_server_name {
            Some(name) => Some(name.as_str()),
            None => None,
        };
        validation_name(self.server_name.as_str(), given).to_owned()
    }
}

fn answer_ca(server: &str, ca_pem: &[u8]) -> (turn: (ConnectStage, ConnectAction))
    ensures
        turn.0 == on_ca(server@, ca_pem@).0,
        turn.1.performs(on_ca(server@, ca_pem@).1),
{
    match trust_roots(ca_pem) {
        Ok(roots) => {
            let settings = client_transport_settings();
            (ConnectStage::Preparing, ConnectAction::Prepare { roots, settings })
        },
        Err(error) => {
            let step = match &error {
                TrustError::Parse(_) => ConnectStep::ParseCa,
                TrustError::Add(_) => ConnectStep::AddCa,
            };
            let report = failure_text(step, server);
            (ConnectStage::Over, ConnectAction::Distrust { report, error })
        },
    }
}

fn answer_failure(stage: ConnectStage, server: &str) -> (action: ConnectAction)
    ensures
        action.performs(on_failure(stage, server@)),
{
    match stage {
        ConnectStage::ReadingCa => {
            ConnectAction::Report(failure_text(ConnectStep::ReadCa, server))
        },
        ConnectStage::Resolving => {
            ConnectAction::Report(failure_text(ConnectStep::Resolve, server))
        },
        ConnectStage::Establishing => {
            ConnectAction::Report(failure_text(ConnectStep::Establish, server))
        },
        ConnectStage::Over => ConnectAction::Unexpected,
        _ => ConnectAction::PassOn,
    }
}

/// The place of a stage in the course of setting up a connection.
pub open spec fn connect_progress(stage: ConnectStage) -> nat {
    match stage {
        ConnectStage::ReadingCa => 0,
        ConnectStage::Preparing => 1,
        ConnectStage::Resolving => 2,
        ConnectStage::Dialing => 3,
        ConnectStage::Establishing => 4,
        ConnectStage::Opening => 5,
        ConnectStage::Over => 6,
    }
}

/// No step is skipped on the way to a connection and none is repeated: whatever the
/// transport reports, the set-up moves on by one step, is over, or stays exactly as it
/// is.
pub proof fn no_step_is_skipped(target: Target, stage: ConnectStage, input: ConnectInput)
    ensures
        ({
            let (next, outcome) = connect_step(target, stage, input);
            ||| connect_progress(next) == connect_progress(stage) + 1
            ||| next is Over && !(outcome is Finish)
            ||| next == stage && outcome is Unexpected
        }),
{
}

/// Only a connection on which everything has been done gives a client, and the client
/// names the server that was asked for.
pub proof fn a_client_comes_last(target: Target, stage: ConnectStage, input: ConnectInput)
    ensures
        ({
            let outcome = connect_step(target, stage, input).1;
            &&& outcome is Finish <==> stage is Opening && input is Done
            &&& outcome is Finish ==> outcome == (ConnectOutcome::Finish {
                host: authority(target.name, target.port),
            })
        }),
{
}

/// A connection is dialed to an address of IPv4 only, under the name that the
/// certificate must bear.
pub proof fn only_ipv4_is_dialed(target: Target, families: Seq<AddressFamily>)
    ensures
        match connect_step(
            target,
            ConnectStage::Resolving,
            ConnectInput::Resolved(families),
        ).1 {
            ConnectOutcome::Dial { index, name } => 0 <= index < families.len()
                && families[index] is V4 && name == certificate_name(target.name, target.tls_name),
            _ => forall|j: int| 0 <= j < families.len() ==> !(#[trigger] families[j] is V4),
        },
    decreases families.len(),
{
    if families.len() > 0 && !(families[0] is V4) {
        only_ipv4_is_dialed(target, families.skip(1));
        assert forall|j: int|
            first_v4(families) is None && 0 <= j < families.len() implies !(
        #[trigger] families[j] is V4) by {
            if j > 0 {
                assert(families[j] == families.skip(1)[j - 1]);
            }
        }
    }
}

} // verus!
