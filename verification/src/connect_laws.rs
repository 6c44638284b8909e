//! What holds of the set-up of a connection from the CA certificates to the client.
use vstd::prelude::*;

use crate::connect::{
    an_authority_names_the_server, anchors_of, authority, certificate_name, connect_step, failure,
    first_v4, names_server, AddressFamily, ConnectAction, ConnectEvent, ConnectInput,
    ConnectOutcome, ConnectStage, ConnectStep, Target,
};
use crate::outside::{pem_certificates, store_anchors, trust_anchor};
use crate::MAX_IDLE_TIMEOUT;

verus! {

/// Every certificate of a usable file is trusted, in order, and nothing else is; a file
/// is not usable exactly if one of its certificates is not.
pub proof fn every_certificate_is_trusted(certificates: Seq<Seq<u8>>)
    ensures
        anchors_of(certificates) is None <==> exists|i: int|
            0 <= i < certificates.len() && trust_anchor(#[trigger] certificates[i]) is None,
        anchors_of(certificates) matches Some(anchors) ==> {
            &&& anchors.len() == certificates.len()
            &&& forall|i: int|
                0 <= i < certificates.len() ==> trust_anchor(#[trigger] certificates[i]) == Some(
                    anchors[i],
                )
        },
    decreases certificates.len(),
{
    if certificates.len() > 0 {
        let front = certificates.drop_last();
        every_certificate_is_trusted(front);
        if anchors_of(front) is None {
            let i = choose|i: int|
                0 <= i < front.len() && trust_anchor(#[trigger] front[i]) is None;
            assert(trust_anchor(certificates[i]) is None);
        } else if trust_anchor(certificates.last()) is None {
            assert(trust_anchor(certificates[certificates.len() - 1]) is None);
        } else {
            let anchors = anchors_of(certificates)->0;
            assert forall|i: int| 0 <= i < certificates.len() implies trust_anchor(
                #[trigger] certificates[i],
            ) == Some(anchors[i]) by {
                if i < front.len() {
                    assert(front[i] == certificates[i]);
                }
            }
        }
    }
}

/// The address that is chosen is one of IPv4, and none before it is; there is none
/// exactly if no address is of IPv4.
pub proof fn the_first_ipv4_address_is_chosen(families: Seq<AddressFamily>)
    ensures
        match first_v4(families) {
            Some(n) => {
                &&& 0 <= n < families.len()
                &&& families[n] is V4
                &&& forall|j: int| 0 <= j < n ==> #[trigger] families[j] is V6
            },
            None => forall|j: int| 0 <= j < families.len() ==> #[trigger] families[j] is V6,
        },
    decreases families.len(),
{
    if families.len() > 0 && !(families[0] is V4) {
        let later = families.skip(1);
        the_first_ipv4_address_is_chosen(later);
        assert forall|j: int|
            0 < j < families.len() && later[j - 1] is V6 implies #[trigger] families[j] is V6 by {
            assert(later[j - 1] == families[j]);
        }
        match first_v4(later) {
            Some(n) => {
                assert(families[n + 1] == later[n]);
                assert forall|j: int| 0 <= j < n + 1 implies #[trigger] families[j] is V6 by {
                    if j > 0 {
                        assert(later[j - 1] == families[j]);
                    }
                }
            },
            None => {
                assert forall|j: int| 0 <= j < families.len() implies #[trigger] families[j]
                    is V6 by {
                    if j > 0 {
                        assert(later[j - 1] == families[j]);
                    }
                }
            },
        }
    }
}

/// The certificate must bear the name that is given for it; without one, that of the
/// server.
pub proof fn the_given_name_comes_first(name: Seq<char>, given: Seq<char>)
    ensures
        certificate_name(name, Some(given)) == given,
        certificate_name(name, None) == name,
{
}

/// What is done as the transport reports `inputs` one after the other.
pub open spec fn connect_run(
    target: Target,
    stage: ConnectStage,
    inputs: Seq<ConnectInput>,
) -> Seq<ConnectOutcome>
    decreases inputs.len(),
{
    if inputs.len() == 0 {
        Seq::empty()
    } else {
        let (next, outcome) = connect_step(target, stage, inputs[0]);
        seq![outcome] + connect_run(target, next, inputs.skip(1))
    }
}

proof fn lemma_one_step(target: Target, stage: ConnectStage, inputs: Seq<ConnectInput>)
    requires
        inputs.len() > 0,
    ensures
        connect_run(target, stage, inputs) == seq![connect_step(target, stage, inputs[0]).1]
            + connect_run(target, connect_step(target, stage, inputs[0]).0, inputs.skip(1)),
{
}

/// A connection takes its whole course: an endpoint trusts exactly the certificates of the
/// file and advertises the idle timeout, the name and port of the server are looked up,
/// its first address of IPv4 is dialed under the name that the certificate must bear, and
/// the client that comes of it names the server and its port.
pub proof fn a_connection_takes_its_course(
    target: Target,
    ca_pem: Seq<u8>,
    certificates: Seq<Seq<u8>>,
    families: Seq<AddressFamily>,
)
    requires
        pem_certificates(ca_pem) == Some(certificates),
        forall|i: int|
            0 <= i < certificates.len() ==> trust_anchor(#[trigger] certificates[i]) is Some,
        exists|i: int| 0 <= i < families.len() && #[trigger] families[i] is V4,
    ensures
        ({
            let outcomes = connect_run(
                target,
                ConnectStage::ReadingCa,
                seq![
                    ConnectInput::CaRead(ca_pem),
                    ConnectInput::Done,
                    ConnectInput::Resolved(families),
                    ConnectInput::Done,
                    ConnectInput::Done,
                    ConnectInput::Done,
                ],
            );
            &&& outcomes.len() == 6
            &&& outcomes[0] matches ConnectOutcome::Prepare { anchors, settings } && {
                &&& anchors.len() == certificates.len()
                &&& forall|i: int|
                    0 <= i < certificates.len() ==> trust_anchor(#[trigger] certificates[i])
                        == Some(anchors[i])
                &&& settings.max_idle_timeout == MAX_IDLE_TIMEOUT
            }
            &&& outcomes[1] matches ConnectOutcome::Resolve(server) && names_server(
                server,
                target.name,
                target.port,
            )
            &&& outcomes[2] matches ConnectOutcome::Dial { index, name } && {
                &&& 0 <= index < families.len()
                &&& families[index] is V4
                &&& forall|j: int| 0 <= j < index ==> #[trigger] families[j] is V6
                &&& target.tls_name is Some ==> target.tls_name == Some(name)
                &&& target.tls_name is None ==> name == target.name
            }
            &&& outcomes[3] is Establish
            &&& outcomes[4] is Open
            &&& outcomes[5] matches ConnectOutcome::Finish { host } && names_server(
                host,
                target.name,
                target.port,
            )
        }),
{
    let first = seq![
        ConnectInput::CaRead(ca_pem),
        ConnectInput::Done,
        ConnectInput::Resolved(families),
        ConnectInput::Done,
        ConnectInput::Done,
        ConnectInput::Done,
    ];
    every_certificate_is_trusted(certificates);
    the_first_ipv4_address_is_chosen(families);
    an_authority_names_the_server(target.name, target.port);
    let second = first.skip(1);
    let third = second.skip(1);
    let fourth = third.skip(1);
    let fifth = fourth.skip(1);
    let sixth = fifth.skip(1);
    lemma_one_step(target, ConnectStage::ReadingCa, first);
    lemma_one_step(target, ConnectStage::Preparing, second);
    lemma_one_step(target, ConnectStage::Resolving, third);
    lemma_one_step(target, ConnectStage::Dialing, fourth);
    lemma_one_step(target, ConnectStage::Establishing, fifth);
    lemma_one_step(target, ConnectStage::Opening, sixth);
    assert(sixth.skip(1) =~= Seq::empty());
}

/// A file of CA certificates that cannot be parsed, or of which one certificate is not
/// usable, ends the set-up with a report that says which it was.
pub proof fn an_untrusted_file_is_reported(target: Target, ca_pem: Seq<u8>)
    ensures
        ({
            let (next, outcome) = connect_step(
                target,
                ConnectStage::ReadingCa,
                ConnectInput::CaRead(ca_pem),
            );
            match pem_certificates(ca_pem) {
                None => next is Over && outcome == (ConnectOutcome::Distrust {
                    report: "Failed to parse CA certificate"@,
                    parsed: false,
                }),
                Some(certificates) => (exists|i: int|
                    0 <= i < certificates.len() && trust_anchor(#[trigger] certificates[i])
                        is None) ==> next is Over && outcome == (ConnectOutcome::Distrust {
                    report: "Failed to add CA certificate to store"@,
                    parsed: true,
                }),
            }
        }),
{
    if let Some(certificates) = pem_certificates(ca_pem) {
        every_certificate_is_trusted(certificates);
    }
}

/// A server without an address of IPv4 ends the set-up.
pub proof fn a_server_without_ipv4_is_reported(target: Target, families: Seq<AddressFamily>)
    requires
        forall|j: int| 0 <= j < families.len() ==> #[trigger] families[j] is V6,
    ensures
        connect_step(target, ConnectStage::Resolving, ConnectInput::Resolved(families)) == (
            ConnectStage::Over,
            ConnectOutcome::NoAddress("No IPv4 addresses found for server"@),
        ),
{
    the_first_ipv4_address_is_chosen(families);
}

/// A failure of the transport ends the set-up wherever it stands. It is reported as what
/// it was where it was the file, the look-up or the handshake that failed, and else
/// passed on as it is.
pub proof fn every_failure_ends_the_set_up(target: Target, stage: ConnectStage)
    ensures
        ({
            let (next, outcome) = connect_step(target, stage, ConnectInput::Failed);
            &&& next is Over
            &&& match stage {
                ConnectStage::ReadingCa => outcome == ConnectOutcome::Report(
                    "Failed to read CA certificate"@,
                ),
                ConnectStage::Preparing => outcome is PassOn,
                ConnectStage::Resolving => outcome matches ConnectOutcome::Report(report) && {
                    let n = "Failed to resolve server address: "@.len() as int;
                    &&& report.len() >= n
                    &&& report.take(n) == "Failed to resolve server address: "@
                    &&& names_server(report.skip(n), target.name, target.port)
                },
                ConnectStage::Dialing => outcome is PassOn,
                ConnectStage::Establishing => outcome == ConnectOutcome::Report(
                    "Failed to establish QUIC connection"@,
                ),
                ConnectStage::Opening => outcome is PassOn,
                ConnectStage::Over => outcome is Unexpected,
            }
        }),
{
    let server = authority(target.name, target.port);
    let start = "Failed to resolve server address: "@;
    an_authority_names_the_server(target.name, target.port);
    assert((start + server).take(start.len() as int) =~= start);
    assert((start + server).skip(start.len() as int) =~= server);
}

/// Only the report of a failed look-up tells the server, and it tells all of it; every
/// other report is the same for all servers.
pub proof fn each_step_has_its_report(step: ConnectStep, server: Seq<char>)
    ensures
        match step {
            ConnectStep::ReadCa => failure(step, server) == "Failed to read CA certificate"@,
            ConnectStep::ParseCa => failure(step, server) == "Failed to parse CA certificate"@,
            ConnectStep::AddCa => failure(step, server)
                == "Failed to add CA certificate to store"@,
            ConnectStep::Resolve => {
                let n = "Failed to resolve server address: "@.len() as int;
                &&& failure(step, server).len() == n + server.len()
                &&& failure(step, server).take(n) == "Failed to resolve server address: "@
                &&& failure(step, server).skip(n) == server
            },
            ConnectStep::SelectAddress => failure(step, server)
                == "No IPv4 addresses found for server"@,
            ConnectStep::Establish => failure(step, server)
                == "Failed to establish QUIC connection"@,
        },
{
    let start = "Failed to resolve server address: "@;
    assert((start + server).take(start.len() as int) =~= start);
    assert((start + server).skip(start.len() as int) =~= server);
}

/// What the transport was not asked for changes nothing.
pub proof fn what_was_not_asked_for_changes_nothing(
    target: Target,
    stage: ConnectStage,
    input: ConnectInput,
)
    requires
        !(input is Failed),
        match stage {
            ConnectStage::ReadingCa => !(input is CaRead),
            ConnectStage::Resolving => !(input is Resolved),
            ConnectStage::Over => true,
            _ => !(input is Done),
        },
    ensures
        connect_step(target, stage, input) == (stage, ConnectOutcome::Unexpected),
{
}

/// An event of the transport hands on all that was read or found.
pub proof fn events_hand_on_what_was_found(event: ConnectEvent<'_>)
    ensures
        match event {
            ConnectEvent::CaRead(bytes) => event@ matches ConnectInput::CaRead(data) && data
                == bytes@,
            ConnectEvent::Resolved(families) => event@ matches ConnectInput::Resolved(found)
                && found == families@,
            ConnectEvent::Done => event@ is Done,
            ConnectEvent::Failed => event@ is Failed,
        },
{
}

/// An action is what its outcome asks for, and hands on all that the outcome holds.
pub proof fn actions_do_what_is_asked_for(action: ConnectAction, outcome: ConnectOutcome)
    requires
        action.performs(outcome),
    ensures
        match outcome {
            ConnectOutcome::Prepare { anchors, settings } => action matches ConnectAction::Prepare {
                roots,
                settings: given,
            } && store_anchors(roots) == anchors && given.max_idle_timeout
                == settings.max_idle_timeout,
            ConnectOutcome::Resolve(server) => action matches ConnectAction::Resolve(text)
                && text@ == server,
            ConnectOutcome::Dial { index, name } => action matches ConnectAction::Dial {
                index: place,
                name: text,
            } && place == index && text@ == name,
            ConnectOutcome::Establish => action is Establish,
            ConnectOutcome::Open => action is Open,
            ConnectOutcome::Finish { host } => action matches ConnectAction::Finish(client)
                && client@ == host,
            ConnectOutcome::Report(report) => action matches ConnectAction::Report(text) && text@
                == report,
            ConnectOutcome::PassOn => action is PassOn,
            ConnectOutcome::Distrust { report, parsed } => action matches ConnectAction::Distrust {
                report: text,
                error,
            } && text@ == report && (error is Add <==> parsed),
            ConnectOutcome::NoAddress(report) => action matches ConnectAction::NoAddress(text)
                && text@ == report,
            ConnectOutcome::Unexpected => action is Unexpected,
        },
{
}

} // verus!
