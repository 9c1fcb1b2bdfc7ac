//! How a server goes from message to message.

use vstd::prelude::*;

use crate::crypto::hash::{digest_of, Algorithm};
use crate::crypto::kdf::hmac_of;
use crate::crypto::kx::KexGroup;
use crate::crypto::laws::{c_e_label, code, law_resumption_keys};
use crate::handshake::reassemblers::{incomplete, next_outcome, ReassemblerView};
use crate::handshake::{ClientHelloView, HandshakeView};
use crate::record::{suite_hash, CipherSuite};
use crate::server::agreement::hashes_fit;
use crate::server::hello::{chosen_suite, hello_terms, no_offers, offers_read};
use crate::server::machine::{
    certificate_step, certificate_verify_step, drain_step, early_eligible, end_of_early_data_step,
    finished_step, flight, fresh_server, hello_step, key_update_step, process_step, read_step,
    settled, taken, ConfigView, FlightTerms, HelloInputs, Inputs, ServerView, MAX_TRANSCRIPT_LEN,
};
use crate::server::resumption::accepted_psk;
use crate::server::{ClientAuth, State};
use crate::{Epoch, Error, EventView};

verus! {

/// A new server has said nothing and heard nothing: it waits for the first message of a
/// client and has no keys.
pub proof fn law_new_server(config: ConfigView, has_guard: bool, client_auth: Option<ClientAuth>)
    ensures
        ({
            let v = fresh_server(config, has_guard, client_auth);
            &&& v.config == config && v.has_guard == has_guard && v.client_auth == client_auth
            &&& v.state == State::ExpectClientHello
            &&& v.transcript.len() == 0 && v.pending.pending.len() == 0
            &&& v.c_hs is None && v.c_ap is None && v.s_ap is None && v.master is None && v.exporter is None
            &&& v.expected_finished is None && v.suite is None && v.alpn is None && v.early_data_remaining is None
            &&& v.client_cert_type == 0 && v.client_leaf is None && v.client_chain.len() == 0
            &&& !v.hrr_done
            &&& v.key_updates == 0
        }),
{
}

/// What a server settles from the first message of a client: the message joins those
/// before it, the session is the one that its ticket names where the server has keys of
/// tickets and the suite the hash of tickets, and early data is taken where it may be and
/// was not seen before.
pub proof fn law_hello_settles(v: ServerView, ch: ClientHelloView, raw: Seq<u8>, group: KexGroup, x: HelloInputs)
    ensures
        ({
            let (offers, refused) = offers_read(v.config.alpn_protocols, no_offers(v.alpn), ch.extensions);
            let (w, terms) = settled(v, ch, raw, group, x);
            &&& refused is Some ==> terms == Err::<FlightTerms, Error>(refused->0) && w.transcript == v.transcript
            &&& refused is None ==> {
                &&& terms is Ok
                &&& w.transcript == v.transcript + raw
                &&& (terms->Ok_0).session_id == ch.legacy_session_id
                &&& (terms->Ok_0).group == group
                &&& (terms->Ok_0).offers == offers
                &&& (terms->Ok_0).psk == if v.config.ticket_keys is Some && (v.suite is None || suite_hash(v.suite->0)
                    == Algorithm::Sha256) {
                    accepted_psk(
                        v.config.ticket_keys->0,
                        x.now,
                        if v.hrr_done {
                            v.transcript
                        } else {
                            Seq::empty()
                        },
                        ch.extensions,
                        raw,
                    )
                } else {
                    None
                }
                &&& (terms->Ok_0).early <==> x.registered && early_eligible(
                    ServerView { alpn: offers.alpn, ..v },
                    ch.extensions,
                    (terms->Ok_0).psk,
                    x.early_now,
                )
            }
            &&& w == (ServerView { alpn: offers.alpn, transcript: w.transcript, ..v })
        }),
{
}

/// The first message of a client is answered with a flight on the terms that it settles.
pub proof fn law_hello_is_answered(
    v: ServerView,
    ch: ClientHelloView,
    raw: Seq<u8>,
    x: HelloInputs,
    suite: CipherSuite,
    group: KexGroup,
    any: KexGroup,
    share: Seq<u8>,
)
    requires
        chosen_suite(ch.cipher_suites) == Some(suite),
        hello_terms(ch, v.config.source.key().scheme()) == Ok::<(KexGroup, Option<(KexGroup, Seq<u8>)>), Error>(
            (any, Some((group, share))),
        ),
    ensures
        ({
            let (w, terms) = settled(ServerView { suite: Some(suite), ..v }, ch, raw, group, x);
            match terms {
                Err(e) => hello_step(v, ch, raw, x) == (w, Err::<Seq<EventView>, Error>(e)),
                Ok(t) => hello_step(v, ch, raw, x) == flight(w, t, x),
            }
        }),
{
}

/// A flight that takes early data tells its key, a code under the key of the session over
/// the messages so far, behind what the offers tell, and then waits for the end of the
/// data, of which there may be 16384 bytes. Any other flight tells no such key.
#[verifier::rlimit(40)]
pub proof fn law_flight_takes_early_data(v: ServerView, t: FlightTerms, x: HelloInputs)
    requires
        hashes_fit(Algorithm::Sha256),
        t.early ==> t.psk is Some,
        flight(v, t, x).1 is Ok,
    ensures
        ({
            let (w, out) = flight(v, t, x);
            let events = out->Ok_0;
            let n = t.offers.events.len() as int;
            let h = Algorithm::Sha256;
            &&& events.len() >= n
            &&& events.take(n) == t.offers.events
            &&& t.early ==> {
                &&& events.len() > n
                &&& events[n] == (EventView::ZeroRttKeysReady {
                    secret: code(
                        h,
                        hmac_of(h, Seq::new(32, |i: int| 0u8), (t.psk->0).ticket.psk),
                        c_e_label(),
                        digest_of(h, v.transcript),
                        32,
                    ),
                })
                &&& w.state == State::ExpectEndOfEarlyData
                &&& w.early_data_remaining == Some(16384u32)
            }
            &&& !t.early ==> {
                &&& events.len() > n && events[n] is Send
                &&& w.early_data_remaining == v.early_data_remaining
                &&& w.state == if t.psk is None && v.client_auth is Some {
                    State::ExpectClientCertificate
                } else {
                    State::ExpectClientFinished
                }
            }
        }),
{
    let (w, out) = flight(v, t, x);
    let events = out->Ok_0;
    let n = t.offers.events.len() as int;
    if t.early {
        assert(digest_of(Algorithm::Sha256, v.transcript).len() == 32);
        law_resumption_keys((t.psk->0).ticket.psk, digest_of(Algorithm::Sha256, v.transcript));
    }
    assert(events.take(n) =~= t.offers.events);
}

/// Each message is taken by the step that its state waits for it with.
pub proof fn law_each_message_has_its_step(v: ServerView, raw: Seq<u8>, m: HandshakeView, x: Inputs)
    requires
        v.transcript.len() <= MAX_TRANSCRIPT_LEN,
    ensures
        v.state == State::ExpectClientHello && m is ClientHello ==> process_step(v, Epoch::Plaintext, m, raw, x)
            == hello_step(v, m->ClientHello_0, raw, x.hello),
        v.state == State::ExpectEndOfEarlyData && m is EndOfEarlyData ==> process_step(v, Epoch::EarlyData, m, raw, x)
            == end_of_early_data_step(v, raw),
        v.state == State::ExpectClientCertificate && m is Certificate ==> process_step(v, Epoch::Handshake, m, raw, x)
            == certificate_step(v, m->Certificate_0, raw),
        v.state == State::ExpectClientCertVerify && m is CertificateVerify ==> process_step(
            v,
            Epoch::Handshake,
            m,
            raw,
            x,
        ) == certificate_verify_step(v, m->CertificateVerify_0, raw, x.allowed),
        v.state == State::ExpectClientFinished && m is Finished ==> process_step(v, Epoch::Handshake, m, raw, x)
            == finished_step(v, m->Finished_0, raw, x.ticket),
        v.state == State::Done && m is KeyUpdate ==> process_step(v, Epoch::Application, m, raw, x) == key_update_step(
            v,
            m->KeyUpdate_0,
        ),
{
    reveal(process_step);
}

/// Messages are taken in turn: what the first brings about comes first, and an error ends
/// the turn.
pub proof fn law_messages_in_turn(
    v: ServerView,
    epoch: Epoch,
    m: HandshakeView,
    raw: Seq<u8>,
    x: Inputs,
    xs: Seq<Inputs>,
)
    requires
        next_outcome(v.pending) == Ok::<Option<(HandshakeView, Seq<u8>)>, Error>(Some((m, raw))),
    ensures
        ({
            let (v1, out) = process_step(taken(v), epoch, m, raw, x);
            let (end, all) = drain_step(v, epoch, seq![x] + xs);
            match out {
                Err(e) => end == v1 && all == Err::<Seq<EventView>, Error>(e),
                Ok(events) => {
                    let (later, rest) = drain_step(v1, epoch, xs);
                    &&& end == later
                    &&& rest is Ok ==> all == Ok::<Seq<EventView>, Error>(events + rest->Ok_0)
                    &&& rest is Err ==> all == Err::<Seq<EventView>, Error>(rest->Err_0)
                },
            }
        }),
{
    let l = seq![x] + xs;
    assert(l[0] == x);
    assert(l.skip(1) =~= xs);
}

/// Bytes of two epochs make no message: what is left over from one is an error in another.
pub proof fn law_no_message_over_epochs(v: ServerView, epoch: Epoch, data: Seq<u8>, xs: Seq<Inputs>)
    requires
        v.pending.pending.len() > 0,
        v.pending.epoch != Some(epoch),
    ensures
        read_step(v, epoch, data, xs) == (v, Err::<Seq<EventView>, Error>(Error::Decode)),
{
}

/// Bytes that do not make a message yet bring nothing about and wait, so that it makes no
/// difference where a message is cut.
pub proof fn law_read_in_pieces(v: ServerView, epoch: Epoch, a: Seq<u8>, b: Seq<u8>, xs: Seq<Inputs>)
    requires
        v.pending.pending.len() == 0 || v.pending.epoch == Some(epoch),
        incomplete(v.pending.pending + a),
    ensures
        ({
            let (w, out) = read_step(v, epoch, a, xs);
            &&& out == Ok::<Seq<EventView>, Error>(Seq::empty())
            &&& w == (ServerView {
                pending: ReassemblerView { pending: v.pending.pending + a, epoch: Some(epoch), key_updates: 0 },
                ..v
            })
            &&& read_step(w, epoch, b, xs) == read_step(v, epoch, a + b, xs)
        }),
{
    let p = v.pending.pending;
    let (w, out) = read_step(v, epoch, a, xs);
    assert((p + a) + b =~= p + (a + b));
}

} // verus!
