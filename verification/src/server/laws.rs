//! What holds of a server over all its steps.

use vstd::prelude::*;

use crate::crypto::kx::KexGroup;
use crate::extension::{find_extension, ExtensionType, ExtensionView};
use crate::handshake::reassemblers::next_outcome;
use crate::handshake::{
    CertificateVerifyView, CertificateView, ClientHelloView, HandshakeView, MAX_KEY_UPDATES_WITHOUT_APP_DATA,
};
use crate::identity::cert::certificate;
use crate::identity::spki::{law_spki_round_trip, KeyView};
use crate::peer::{leaf_verdict, raw_leaf, x509_leaf, LeafKeyKind};
use crate::proto::verify_message;
use crate::server::flight::answers;
use crate::server::hello::{
    chosen_suite, hello_terms, no_offers, offer_read, offers_read, OffersView,
};
use crate::server::machine::{
    certificate_step, certificate_verify_step, charged, closing, drain_step, flight, fresh_server,
    hello_step, key_update_step, offered_psk, opening, process_step, read_step, received, settled,
    taken, ClientAuth, ConfigView, FlightTerms, HelloInputs, Inputs, ServerView, SourceView,
    State,
    MAX_TRANSCRIPT_LEN,
};
use crate::{Epoch, Error, EventView, KeyDirection};

verus! {

/// What always holds of a server: its secrets are there once its flight is sent, and
/// not before; what it waits for next is known; an allowance of early data exists
/// only while early data may come.
pub open spec fn consistent(v: ServerView) -> bool {
    let sent = v.state != State::ExpectClientHello;
    &&& sent == v.c_hs is Some
    &&& sent == v.c_ap is Some
    &&& sent == v.s_ap is Some
    &&& sent == v.exporter is Some
    &&& sent == v.master is Some
    &&& sent ==> v.suite is Some && v.master->0.alg == v.alg()
    &&& v.state == State::ExpectClientFinished || v.state == State::Done ==> v.expected_finished is Some
    &&& v.state == State::ExpectClientCertificate || v.state == State::ExpectClientCertVerify
        ==> v.client_auth is Some
    &&& v.state == State::ExpectClientCertVerify ==> v.client_leaf is Some
    &&& v.early_data_remaining is Some ==> v.state == State::ExpectEndOfEarlyData
}

/// A new server is consistent.
pub proof fn law_fresh_consistent(config: ConfigView, has_guard: bool, client_auth: Option<ClientAuth>)
    ensures
        consistent(fresh_server(config, has_guard, client_auth)),
{
}

/// The key that a client reads out of what a server presents.
pub open spec fn presented_leaf(source: SourceView) -> Result<(LeafKeyKind, Seq<u8>), Error> {
    match source.presented() {
        Err(e) => Err(e),
        Ok(chain) => match source {
            SourceView::RawPublicKey { .. } => raw_leaf(chain[0]),
            SourceView::X509 { .. } => match x509_leaf(chain[0]) {
                Ok((kind, raw, _)) => Ok((kind, raw)),
                Err(e) => Err(e),
            },
        },
    }
}

/// No server is set up that cannot authenticate itself: what an accepted
/// configuration presents holds a key, and whatever the server signs verifies under
/// it.
pub proof fn law_server_authenticates(c: ConfigView, msg: Seq<u8>, sig: Seq<u8>)
    requires
        c.fits(),
        c.source.key().paired(),
        c.source.key().signs(msg, sig),
    ensures
        c.source.presented() is Ok,
        c.source.presented()->Ok_0.len() > 0,
        presented_leaf(c.source) matches Ok((kind, raw)) && leaf_verdict(
            kind,
            raw,
            c.source.key().scheme(),
            msg,
            sig,
        ) is Ok,
{
    match c.source {
        SourceView::RawPublicKey { key } => {
            law_spki_round_trip(KeyView::Ed25519(key->Ed25519_public));
        },
        SourceView::X509 { chain, key } => {
            assert(certificate(chain[0]) is Ok);
        },
    }
}

proof fn lemma_flight_consistent(v: ServerView, t: FlightTerms, x: HelloInputs)
    requires
        consistent(v),
        v.state == State::ExpectClientHello,
        v.suite is Some,
    ensures
        consistent(flight(v, t, x).0),
        flight(v, t, x).1 is Ok ==> flight(v, t, x).0.state != State::ExpectClientHello,
        flight(v, t, x).1 is Err ==> flight(v, t, x).0.state == State::ExpectClientHello,
        flight(v, t, x).0.state == State::ExpectEndOfEarlyData ==> t.early,
        flight(v, t, x).1 is Ok && v.client_auth is Some && t.psk is None && !t.early ==> flight(
            v,
            t,
            x,
        ).0.state == State::ExpectClientCertificate,
{
    if x.exchange is Some && x.random is Some {
        let (v1, opened) = opening(v, t, (x.exchange->0).0, (x.exchange->0).1, x.random->0);
        assert(consistent(v1) && v1.state == v.state && v1.suite == v.suite && v1.client_auth
            == v.client_auth);
        if opened is Ok {
            let (v2, out) = closing(v1, t, opened->Ok_0, x.signature);
            assert(consistent(v2));
        }
    }
}

proof fn lemma_hello_consistent(v: ServerView, ch: ClientHelloView, raw: Seq<u8>, x: HelloInputs)
    requires
        consistent(v),
        v.state == State::ExpectClientHello,
    ensures
        consistent(hello_step(v, ch, raw, x).0),
{
    match chosen_suite(ch.cipher_suites) {
        None => {},
        Some(suite) => {
            let v1 = ServerView { suite: Some(suite), ..v };
            match hello_terms(ch, v.config.source.key().scheme()) {
                Ok((_, Some((group, _)))) => {
                    let (v2, terms) = settled(v1, ch, raw, group, x);
                    assert(consistent(v2) && v2.state == v.state && v2.suite == v1.suite);
                    if terms is Ok {
                        lemma_flight_consistent(v2, terms->Ok_0, x);
                    }
                },
                _ => {},
            }
        },
    }
}

/// Whatever message comes, and whether it is refused or not, a consistent server
/// stays consistent.
pub proof fn law_process_consistent(v: ServerView, epoch: Epoch, m: HandshakeView, raw: Seq<u8>, x: Inputs)
    requires
        consistent(v),
    ensures
        consistent(process_step(v, epoch, m, raw, x).0),
{
    reveal(process_step);
    if let HandshakeView::ClientHello(ch) = m {
        if v.state == State::ExpectClientHello {
            lemma_hello_consistent(v, ch, raw, x.hello);
        }
    }
}

proof fn lemma_drain_consistent(v: ServerView, epoch: Epoch, xs: Seq<Inputs>)
    requires
        consistent(v),
    ensures
        consistent(drain_step(v, epoch, xs).0),
    decreases xs.len(),
{
    match next_outcome(v.pending) {
        Ok(Some((m, raw))) => if xs.len() > 0 {
            let (v1, out) = process_step(taken(v), epoch, m, raw, xs[0]);
            law_process_consistent(taken(v), epoch, m, raw, xs[0]);
            if out is Ok {
                lemma_drain_consistent(v1, epoch, xs.skip(1));
            }
        },
        _ => {},
    }
}

/// Whatever bytes a record holds, a consistent server stays consistent.
pub proof fn law_read_consistent(v: ServerView, epoch: Epoch, data: Seq<u8>, xs: Seq<Inputs>)
    requires
        consistent(v),
    ensures
        consistent(read_step(v, epoch, data, xs).0),
{
    lemma_drain_consistent(received(v, epoch, data), epoch, xs);
}

/// A handshake is complete only after a Finished message that says what the server
/// expected.
pub proof fn law_done_needs_finished(v: ServerView, epoch: Epoch, m: HandshakeView, raw: Seq<u8>, x: Inputs)
    requires
        v.state != State::Done,
    ensures
        process_step(v, epoch, m, raw, x).0.state == State::Done ==> {
            &&& v.state == State::ExpectClientFinished
            &&& epoch == Epoch::Handshake
            &&& m matches HandshakeView::Finished(data) && v.expected_finished == Some(data)
        },
{
    reveal(process_step);
    if let HandshakeView::ClientHello(ch) = m {
        lemma_hello_not_done(v, ch, raw, x.hello);
    }
}

proof fn lemma_hello_not_done(v: ServerView, ch: ClientHelloView, raw: Seq<u8>, x: HelloInputs)
    requires
        v.state != State::Done,
    ensures
        hello_step(v, ch, raw, x).0.state != State::Done,
{
    match chosen_suite(ch.cipher_suites) {
        None => {},
        Some(suite) => {
            let v1 = ServerView { suite: Some(suite), ..v };
            match hello_terms(ch, v.config.source.key().scheme()) {
                Ok((_, Some((group, _)))) => {
                    let (v2, terms) = settled(v1, ch, raw, group, x);
                    if terms is Ok && x.exchange is Some && x.random is Some {
                        let t = terms->Ok_0;
                        let (v3, opened) = opening(
                            v2,
                            t,
                            (x.exchange->0).0,
                            (x.exchange->0).1,
                            x.random->0,
                        );
                        assert(v3.state == v.state);
                    }
                },
                _ => {},
            }
        },
    }
}

/// A completed handshake stays complete: no message, refused or not, undoes it.
pub proof fn law_done_is_final(v: ServerView, epoch: Epoch, m: HandshakeView, raw: Seq<u8>, x: Inputs)
    requires
        v.state == State::Done,
    ensures
        process_step(v, epoch, m, raw, x).0.state == State::Done,
        !(m is KeyUpdate && epoch == Epoch::Application) ==> process_step(v, epoch, m, raw, x).0 == v
            && process_step(v, epoch, m, raw, x).1 is Err,
{
    reveal(process_step);
}

/// A message that the server does not wait for is refused and changes nothing.
pub proof fn law_unexpected_is_refused(v: ServerView, epoch: Epoch, m: HandshakeView, raw: Seq<u8>, x: Inputs)
    requires
        v.transcript.len() <= MAX_TRANSCRIPT_LEN,
        match v.state {
            State::ExpectClientHello => !(m is ClientHello && epoch == Epoch::Plaintext),
            State::ExpectEndOfEarlyData => !(m is EndOfEarlyData && epoch == Epoch::EarlyData),
            State::ExpectClientCertificate => !(m is Certificate && epoch == Epoch::Handshake),
            State::ExpectClientCertVerify => !(m is CertificateVerify && epoch == Epoch::Handshake),
            State::ExpectClientFinished => !(m is Finished && epoch == Epoch::Handshake),
            State::Done => !(m is KeyUpdate && epoch == Epoch::Application),
        },
    ensures
        process_step(v, epoch, m, raw, x) == (v, Err::<Seq<EventView>, Error>(Error::UnexpectedMessage)),
{
    reveal(process_step);
}

/// A client is asked to try again once at most: the request notes that it was made,
/// and a ClientHello without a usable share is refused from then on.
pub proof fn law_one_retry(v: ServerView, ch: ClientHelloView, raw: Seq<u8>, x: HelloInputs)
    requires
        consistent(v),
        v.state == State::ExpectClientHello,
    ensures
        ({
            let (after, out) = hello_step(v, ch, raw, x);
            out is Ok && after.state == State::ExpectClientHello ==> !v.hrr_done && after.hrr_done
        }),
{
    match chosen_suite(ch.cipher_suites) {
        None => {},
        Some(suite) => {
            let v1 = ServerView { suite: Some(suite), ..v };
            match hello_terms(ch, v.config.source.key().scheme()) {
                Ok((_, Some((group, _)))) => {
                    let (v2, terms) = settled(v1, ch, raw, group, x);
                    if terms is Ok {
                        lemma_flight_consistent(v2, terms->Ok_0, x);
                    }
                },
                _ => {},
            }
        },
    }
}

/// Without a guard no early data is ever taken.
pub proof fn law_no_guard_no_early_data(v: ServerView, ch: ClientHelloView, raw: Seq<u8>, x: HelloInputs)
    requires
        consistent(v),
        v.state == State::ExpectClientHello,
        !v.has_guard || !v.config.accept_early_data,
    ensures
        hello_step(v, ch, raw, x).0.state != State::ExpectEndOfEarlyData,
        hello_step(v, ch, raw, x).0.early_data_remaining is None,
{
    lemma_hello_consistent(v, ch, raw, x);
    match chosen_suite(ch.cipher_suites) {
        None => {},
        Some(suite) => {
            let v1 = ServerView { suite: Some(suite), ..v };
            match hello_terms(ch, v.config.source.key().scheme()) {
                Ok((_, Some((group, _)))) => {
                    let (v2, terms) = settled(v1, ch, raw, group, x);
                    if terms is Ok {
                        lemma_flight_consistent(v2, terms->Ok_0, x);
                    }
                },
                _ => {},
            }
        },
    }
}

/// A server that authenticates its clients asks every one for a certificate whose
/// ticket it does not accept.
pub proof fn law_client_is_asked(v: ServerView, ch: ClientHelloView, raw: Seq<u8>, x: HelloInputs)
    requires
        consistent(v),
        v.state == State::ExpectClientHello,
        v.client_auth is Some,
    ensures
        ({
            let (after, out) = hello_step(v, ch, raw, x);
            out is Ok && after.state != State::ExpectClientHello ==> {
                ||| after.state == State::ExpectClientCertificate
                ||| exists|u: ServerView|
                    u.config == v.config && #[trigger] offered_psk(u, ch.extensions, raw, x.now) is Some
            }
        }),
{
    match chosen_suite(ch.cipher_suites) {
        None => {},
        Some(suite) => {
            let v1 = ServerView { suite: Some(suite), ..v };
            match hello_terms(ch, v.config.source.key().scheme()) {
                Ok((_, Some((group, _)))) => {
                    let (v2, terms) = settled(v1, ch, raw, group, x);
                    if terms is Ok {
                        lemma_flight_consistent(v2, terms->Ok_0, x);
                    }
                },
                _ => {},
            }
        },
    }
}

/// Where a client's certificate is required, a client that sends none is refused, and
/// one that sends any has to prove possession of its key next.
pub proof fn law_required_client_presents(v: ServerView, m: CertificateView, raw: Seq<u8>)
    requires
        v.client_auth == Some(ClientAuth::Required),
    ensures
        certificate_step(v, m, raw).1 is Ok ==> {
            &&& m.certificate_list.len() > 0
            &&& certificate_step(v, m, raw).0.state == State::ExpectClientCertVerify
        },
{
}

/// A client passes its CertificateVerify only with a signature over the transcript
/// that verifies under the key that it presented, and with the embedder's consent.
pub proof fn law_client_proves_possession(
    v: ServerView,
    m: CertificateVerifyView,
    raw: Seq<u8>,
    allowed: bool,
)
    ensures
        certificate_verify_step(v, m, raw, allowed).1 is Ok ==> {
            &&& allowed
            &&& v.client_leaf is Some
            &&& leaf_verdict(
                (v.client_leaf->0).0,
                (v.client_leaf->0).1,
                m.algorithm,
                verify_message(v.hash(), false),
                m.signature,
            ) is Ok
        },
{
}

/// A KeyUpdate that asks for an answer is answered with one that does not, sent before
/// the server's own keys change.
pub proof fn law_key_update_answered(v: ServerView)
    requires
        consistent(v),
        v.state == State::Done,
        v.key_updates < MAX_KEY_UPDATES_WITHOUT_APP_DATA,
    ensures
        ({
            let (after, out) = key_update_step(v, 1);
            &&& out is Ok
            &&& out->Ok_0.len() == 3
            &&& out->Ok_0[1] == (EventView::Send {
                epoch: Epoch::Application,
                data: HandshakeView::KeyUpdate(0).bytes(),
            })
            &&& out->Ok_0[2] == (EventView::KeyUpdate {
                direction: KeyDirection::Write,
                secret: after.s_ap->0,
            })
            &&& after.key_updates == v.key_updates + 1
        }),
        key_update_step(v, 0).1 is Ok,
        key_update_step(v, 0).0.s_ap == v.s_ap,
{
}

/// KeyUpdates without application data in between are refused beyond the limit.
pub proof fn law_key_update_flood_refused(v: ServerView, request_update: u8)
    requires
        v.key_updates >= MAX_KEY_UPDATES_WITHOUT_APP_DATA,
    ensures
        key_update_step(v, request_update).1 == Err::<Seq<EventView>, Error>(Error::UnexpectedMessage),
        key_update_step(v, request_update).0.c_ap == v.c_ap,
        key_update_step(v, request_update).0.s_ap == v.s_ap,
{
}

/// What is left of an allowance of early data after several chunks.
pub open spec fn all_charged(left: Option<u32>, lens: Seq<nat>) -> Option<u32>
    decreases lens.len(),
{
    if lens.len() == 0 {
        left
    } else {
        all_charged(charged(left, lens[0]), lens.skip(1))
    }
}

/// How many bytes several chunks have.
pub open spec fn total(lens: Seq<nat>) -> nat
    decreases lens.len(),
{
    if lens.len() == 0 {
        0
    } else {
        lens[0] + total(lens.skip(1))
    }
}

/// Chunks of early data are taken exactly as long as they add up to no more than was
/// allowed; beyond that every one is refused.
pub proof fn law_early_data_limit(left: u32, lens: Seq<nat>)
    ensures
        all_charged(Some(left), lens) == if total(lens) <= left {
            Some((left - total(lens)) as u32)
        } else {
            None::<u32>
        },
        all_charged(None, lens) is None,
    decreases lens.len(),
{
    if lens.len() > 0 {
        let rest = lens.skip(1);
        law_early_data_limit(left, rest);
        match charged(Some(left), lens[0]) {
            Some(n) => law_early_data_limit(n, rest),
            None => {},
        }
    }
}

/// Whether a client sent an extension.
pub open spec fn sent(exts: Seq<ExtensionView>, ty: u16) -> bool {
    exists|i: int| 0 <= i < exts.len() && (#[trigger] exts[i]).0 == ty
}

proof fn lemma_offers_sent(own: Seq<Seq<u8>>, o: OffersView, exts: Seq<ExtensionView>)
    ensures
        ({
            let (after, _) = offers_read(own, o, exts);
            &&& after.server_types is Some ==> o.server_types is Some || sent(
                exts,
                ExtensionType::SERVER_CERTIFICATE_TYPE,
            )
            &&& after.client_types is Some ==> o.client_types is Some || sent(
                exts,
                ExtensionType::CLIENT_CERTIFICATE_TYPE,
            )
            &&& after.quic ==> o.quic || sent(exts, ExtensionType::QUIC_TRANSPORT_PARAMETERS)
            &&& after.alpn is Some ==> o.alpn is Some || sent(
                exts,
                ExtensionType::APPLICATION_LAYER_PROTOCOL_NEGOTIATION,
            )
        }),
    decreases exts.len(),
{
    if exts.len() > 0 {
        let (next, e) = offer_read(own, o, exts[0]);
        let rest = exts.skip(1);
        lemma_offers_sent(own, next, rest);
        assert forall|ty: u16| sent(rest, ty) implies sent(exts, ty) by {
            let i = choose|i: int| 0 <= i < rest.len() && (#[trigger] rest[i]).0 == ty;
            assert(exts[i + 1].0 == ty);
        }
        assert(exts[0].0 == exts[0].0);
        assert forall|ty: u16| exts[0].0 == ty implies sent(exts, ty) by {
            assert(exts[0].0 == ty);
        }
    }
}

proof fn lemma_found_is_sent(exts: Seq<ExtensionView>, ty: u16)
    ensures
        find_extension(exts, ty) is Some ==> sent(exts, ty),
    decreases exts.len(),
{
    if exts.len() > 0 {
        let rest = exts.skip(1);
        lemma_found_is_sent(rest, ty);
        if sent(rest, ty) {
            let i = choose|i: int| 0 <= i < rest.len() && (#[trigger] rest[i]).0 == ty;
            assert(exts[i + 1].0 == ty);
        }
        assert(exts[0].0 == ty ==> sent(exts, ty)) by {
            if exts[0].0 == ty {
                assert(exts[0].0 == ty);
            }
        }
    }
}

/// The server answers no extension that the client did not send: every type in its
/// EncryptedExtensions stands in the ClientHello.
pub proof fn law_answers_only_offers(
    v: ServerView,
    ch: ClientHelloView,
    raw: Seq<u8>,
    group: KexGroup,
    x: HelloInputs,
    client_type: u8,
    i: int,
)
    requires
        v.alpn is None,
        settled(v, ch, raw, group, x).1 is Ok,
        ({
            let t = settled(v, ch, raw, group, x).1->Ok_0;
            0 <= i < answers(
                v.config.source.cert_type(),
                client_type,
                t.offers,
                v.config.transport_params,
                t.early,
            ).len()
        }),
    ensures
        ({
            let t = settled(v, ch, raw, group, x).1->Ok_0;
            sent(
                ch.extensions,
                answers(
                    v.config.source.cert_type(),
                    client_type,
                    t.offers,
                    v.config.transport_params,
                    t.early,
                )[i].0,
            )
        }),
{
    lemma_offers_sent(v.config.alpn_protocols, no_offers(v.alpn), ch.extensions);
    lemma_found_is_sent(ch.extensions, ExtensionType::EARLY_DATA);
}

} // verus!
