//! What a client that follows the protocol has in common with a server.

use vstd::prelude::*;

use crate::codec::{be16, be32, get_vec8, put_all, vec16, vec8};
use crate::crypto::aead::{opened, sealed, AeadAlgorithm};
use crate::crypto::hash::{digest_of, hash_len, Algorithm};
use crate::crypto::kdf::{hmac_of, label_bytes, zero_bytes};
use crate::crypto::kx::{group_id, KexGroup};
use crate::crypto::laws::{
    c_ap_label, c_e_label, c_hs_label, code, derived_label, exp_master_label, finished_label,
    law_finished_is_a_code, law_key_schedule, law_resumption_keys, law_traffic_keys, purpose, res_master_label,
    res_binder_label, resumption_label, s_ap_label, s_hs_label, traffic_upd_label,
};
use crate::crypto::schedule::master_secret;
use crate::crypto::ticket::secret::ticket_key;
use crate::extension::{find_extension, ExtensionView};
use crate::handshake::{
    CertificateVerifyView, CertificateView, ClientHelloView, HandshakeView, NewSessionTicketView,
    ServerHelloView, MAX_KEY_UPDATES_WITHOUT_APP_DATA,
};
use crate::peer::{leaf_verdict, raw_leaf, x509_leaf, LeafKeyKind};
use crate::proto::{alpn_bytes, verify_message, x509_schemes};
use crate::psk::{finished_mac, get_offer, vec8_enc, whole};
use crate::record::{law_suite_ids_distinct, suite_hash, suite_id, CipherSuite};
use crate::server::flight::{
    answers, certificate_message, certificate_request, certificate_verify, optional, retry_request,
    server_hello, session_ticket,
};
use crate::server::hello::{chosen_suite, client_cert_type, hello_terms};
use crate::server::machine::{
    asks_client, certificate_step, certificate_verify_step, closing, early_asked, early_eligible,
    early_events, end_of_early_data_step, finished_step, flight, hello_inputs, hello_step,
    key_update_step, opening, send_key_update_step, session_psk, settled, stage_secret, ticket_step,
    traffic, ClientAuth, Embedder, FlightTerms, HelloInputs, ServerView, State, TicketInputs,
};
use crate::server::resumption::{accepted_psk, first_ticket, is_fresh, AcceptedPskView};
use crate::ticket::{
    accepted_ticket, law_content_round_trip, opened_ticket, plaintext_of, sealed_ticket, TicketError, TicketKeysView, TicketView,
};
use crate::{Epoch, Error, EventView, KeyDirection};

verus! {

/// A hash has its length.
pub open spec fn hashes_fit(alg: Algorithm) -> bool {
    forall|m: Seq<u8>| (#[trigger] digest_of(alg, m)).len() == hash_len(alg)
}

/// As many zeros as a hash has bytes.
pub open spec fn no_secret(alg: Algorithm) -> Seq<u8> {
    Seq::new(hash_len(alg), |i: int| 0u8)
}

/// The salt of the stage that follows a secret.
pub open spec fn salt_after(alg: Algorithm, secret: Seq<u8>) -> Seq<u8> {
    code(alg, secret, derived_label(), digest_of(alg, Seq::empty()), hash_len(alg))
}

/// The secret of the handshake, out of a ticket's key, where there is one, and the
/// shared secret of the key exchange.
pub open spec fn client_stage(alg: Algorithm, psk: Option<Seq<u8>>, dhe: Seq<u8>) -> Seq<u8> {
    let early = hmac_of(
        alg,
        no_secret(alg),
        match psk {
            Some(p) => p,
            None => no_secret(alg),
        },
    );
    hmac_of(alg, salt_after(alg, early), dhe)
}

/// The secret of the application stage.
pub open spec fn client_master(alg: Algorithm, stage: Seq<u8>) -> Seq<u8> {
    hmac_of(alg, salt_after(alg, stage), no_secret(alg))
}

/// A secret over messages.
pub open spec fn secret_over(alg: Algorithm, secret: Seq<u8>, label: Seq<u8>, messages: Seq<u8>) -> Seq<u8> {
    code(alg, secret, label, digest_of(alg, messages), hash_len(alg))
}

/// What a Finished message says of the messages before it.
pub open spec fn finished_over(alg: Algorithm, secret: Seq<u8>, messages: Seq<u8>) -> Seq<u8> {
    hmac_of(
        alg,
        code(alg, secret, finished_label(), Seq::empty(), hash_len(alg)),
        digest_of(alg, messages),
    )
}

/// The messages of a server's flight, as they are sent; those that are not sent are
/// empty.
pub struct FlightParts {
    pub hello: Seq<u8>,
    pub extensions: Seq<u8>,
    pub request: Seq<u8>,
    pub certificate: Seq<u8>,
    pub verify: Seq<u8>,
    pub finished: Seq<u8>,
}

/// Whether a ServerHello answers a ClientHello: with the client's session id, TLS 1.3,
/// the suite, a share in the group, and the client's first ticket where it is accepted.
pub open spec fn is_answer(
    sh: ServerHelloView,
    ch: ClientHelloView,
    suite: CipherSuite,
    group: KexGroup,
    x: HelloInputs,
    resumed: bool,
) -> bool {
    &&& sh.legacy_version == 0x0303
    &&& sh.random == x.random->0
    &&& sh.legacy_session_id_echo == ch.legacy_session_id
    &&& sh.cipher_suite == suite_id(suite)
    &&& ch.cipher_suites.contains(sh.cipher_suite)
    &&& sh.legacy_compression_method == 0
    &&& sh.extensions.len() == if resumed {
        3int
    } else {
        2
    }
    &&& sh.extensions[0] == (43u16, seq![3u8, 4])
    &&& sh.extensions[1] == (51u16, be16(group_id(group)) + vec16((x.exchange->0).0))
    &&& resumed ==> sh.extensions[2] == (41u16, seq![0u8, 0])
}

/// Whether a Certificate message presents a chain: each certificate once, in order.
pub open spec fn presents(m: CertificateView, chain: Seq<Seq<u8>>) -> bool {
    &&& m.certificate_request_context.len() == 0
    &&& m.certificate_list.len() == chain.len()
    &&& forall|i: int|
        0 <= i < chain.len() ==> (#[trigger] m.certificate_list[i]).cert_data == chain[i]
            && m.certificate_list[i].extensions.len() == 0
}

/// The message that a server presents itself with carries its whole chain.
pub proof fn law_certificate_carries_the_chain(chain: Seq<Seq<u8>>)
    ensures
        certificate_message(chain) matches HandshakeView::Certificate(m) && presents(m, chain),
{
}

/// What a server signs, given the hash of the messages: spaces, what it is for, and the
/// hash.
pub open spec fn signed_over(hash: Seq<u8>) -> Seq<u8> {
    Seq::new(64, |i: int| 0x20u8) + seq![
        0x54u8,
        0x4c,
        0x53,
        0x20,
        0x31,
        0x2e,
        0x33,
        0x2c,
        0x20,
        0x73,
        0x65,
        0x72,
        0x76,
        0x65,
        0x72,
        0x20,
        0x43,
        0x65,
        0x72,
        0x74,
        0x69,
        0x66,
        0x69,
        0x63,
        0x61,
        0x74,
        0x65,
        0x56,
        0x65,
        0x72,
        0x69,
        0x66,
        0x79,
        0,
    ] + hash
}

/// Whether the messages of a flight are what was settled: a ServerHello that answers
/// the client's, EncryptedExtensions that answer its offers, and, unless a session is
/// resumed, the server's chain and its signature.
pub open spec fn on_wire(
    v: ServerView,
    ch: ClientHelloView,
    suite: CipherSuite,
    group: KexGroup,
    t: FlightTerms,
    x: HelloInputs,
    p: FlightParts,
) -> bool {
    &&& exists|sh: ServerHelloView|
        p.hello == #[trigger] HandshakeView::ServerHello(sh).bytes() && is_answer(
            sh,
            ch,
            suite,
            group,
            x,
            t.psk is Some,
        )
    &&& exists|l: Seq<ExtensionView>|
        p.extensions == #[trigger] HandshakeView::EncryptedExtensions(l).bytes() && extensions_answer(v, t, l)
    &&& t.psk is Some ==> p.request.len() == 0 && p.certificate.len() == 0 && p.verify.len() == 0
    &&& t.psk is None ==> {
        &&& (p.request.len() > 0) == (v.client_auth is Some)
        &&& v.config.source.presented() matches Ok(chain) && exists|m: CertificateView|
            p.certificate == #[trigger] HandshakeView::Certificate(m).bytes() && presents(m, chain)
        &&& p.verify == HandshakeView::CertificateVerify(
            CertificateVerifyView {
                algorithm: v.config.source.key().scheme(),
                signature: x.signature->0,
            },
        ).bytes()
        &&& x.signature is Some
    }
}

/// Whether a server's flight is one that a client can follow, and leaves the server
/// with the secrets that the client then has: all computed by the client from the
/// messages on the wire, the shared secret of the key exchange, and the ticket's key.
pub open spec fn follows(
    v: ServerView,
    ch: ClientHelloView,
    raw: Seq<u8>,
    suite: CipherSuite,
    group: KexGroup,
    t: FlightTerms,
    x: HelloInputs,
    p: FlightParts,
    after: ServerView,
    events: Seq<EventView>,
) -> bool {
    let alg = suite_hash(suite);
    let psk = match t.psk {
        Some(a) => Some(a.ticket.psk),
        None => None,
    };
    let hello = v.transcript + raw + p.hello;
    let signed = hello + p.extensions + p.request + p.certificate;
    let all = signed + p.verify + p.finished;
    let stage = client_stage(alg, psk, (x.exchange->0).1);
    let master = client_master(alg, stage);
    let c_hs = secret_over(alg, stage, c_hs_label(), hello);
    let s_hs = secret_over(alg, stage, s_hs_label(), hello);
    let c_ap = secret_over(alg, master, c_ap_label(), all);
    let s_ap = secret_over(alg, master, s_ap_label(), all);
    let n = events.len();
    &&& on_wire(v, ch, suite, group, t, x, p)
    &&& p.finished == HandshakeView::Finished(finished_over(alg, s_hs, signed + p.verify)).bytes()
    &&& n >= 4
    &&& events[n - 4] == (EventView::Send { epoch: Epoch::Plaintext, data: p.hello })
    &&& events[n - 3] == (EventView::KeysReady {
        epoch: Epoch::Handshake,
        read_secret: c_hs,
        write_secret: s_hs,
    })
    &&& events[n - 2] == (EventView::Send {
        epoch: Epoch::Handshake,
        data: p.extensions + p.request + p.certificate + p.verify + p.finished,
    })
    &&& events[n - 1] == (EventView::KeysReady {
        epoch: Epoch::Application,
        read_secret: c_ap,
        write_secret: s_ap,
    })
    &&& after.transcript == all
    &&& after.suite == Some(suite)
    &&& after.c_hs == Some(c_hs)
    &&& after.c_ap == Some(c_ap)
    &&& after.s_ap == Some(s_ap)
    &&& after.exporter == Some(secret_over(alg, master, exp_master_label(), all))
    &&& after.master matches Some(m) && m.alg == alg && m.secret == master
    &&& if t.early {
        &&& after.state == State::ExpectEndOfEarlyData
        &&& after.early_data_remaining == Some(16384u32)
        &&& n >= 5
        &&& events[n - 5] == (EventView::ZeroRttKeysReady {
            secret: code(
                Algorithm::Sha256,
                hmac_of(Algorithm::Sha256, no_secret(Algorithm::Sha256), psk->0),
                c_e_label(),
                digest_of(Algorithm::Sha256, v.transcript + raw),
                32,
            ),
        })
    } else if psk is None && v.client_auth is Some {
        after.state == State::ExpectClientCertificate
    } else {
        &&& after.state == State::ExpectClientFinished
        &&& after.expected_finished == Some(finished_over(alg, c_hs, all))
    }
}

/// Whether a server's EncryptedExtensions answer what was settled: its certificate
/// type and the one that it asks for where the client named any, its transport
/// parameters where the client sent some, the chosen protocol, and early data where it
/// is taken; nothing else, and each once.
pub open spec fn extensions_answer(v: ServerView, t: FlightTerms, l: Seq<ExtensionView>) -> bool {
    let o = t.offers;
    &&& forall|e: ExtensionView|
        #![trigger l.contains(e)]
        l.contains(e) <==> {
            ||| e.0 == 20 && o.server_types is Some && e.1 == seq![v.config.source.cert_type()]
            ||| e.0 == 19 && o.client_types is Some && e.1 == seq![asked_type(o.client_types->0)]
            ||| e.0 == 57 && o.quic && e.1 == v.config.transport_params
            ||| e.0 == 16 && o.alpn is Some && e.1 == vec16(vec8(o.alpn->0))
            ||| e.0 == 42 && t.early && e.1 == Seq::<u8>::empty()
        }
    &&& forall|i: int, j: int| 0 <= i < j < l.len() ==> (#[trigger] l[i]).0 != (#[trigger] l[j]).0
}

/// The certificate type that a client with a list of types is asked for: the first
/// that is X.509 or a raw public key, X.509 without one.
pub open spec fn asked_type(l: Seq<u8>) -> u8 {
    if exists|i: int|
        #![trigger l[i]]
        0 <= i < l.len() && l[i] == 2 && forall|j: int| 0 <= j < i ==> l[j] != 0 {
        2
    } else {
        0
    }
}

proof fn lemma_asked_type(l: Seq<u8>)
    ensures
        client_cert_type(Some(l)) == asked_type(l),
    decreases l.len(),
{
    if l.len() > 0 {
        let rest = l.skip(1);
        if l[0] == 2 {
            assert(asked_type(l) == 2);
        } else if l[0] == 0 {
            assert forall|i: int| 0 <= i < l.len() && l[i] == 2 implies exists|j: int|
                0 <= j < i && l[j] == 0 by {
                assert(l[0] == 0);
            }
        } else {
            lemma_asked_type(rest);
            if exists|i: int|
                #![trigger l[i]]
                0 <= i < l.len() && l[i] == 2 && forall|j: int| 0 <= j < i ==> l[j] != 0 {
                let i = choose|i: int|
                    #![trigger l[i]]
                    0 <= i < l.len() && l[i] == 2 && forall|j: int| 0 <= j < i ==> l[j] != 0;
                assert(rest[i - 1] == 2);
                assert forall|j: int| 0 <= j < i - 1 implies rest[j] != 0 by {
                    assert(l[j + 1] != 0);
                }
            }
            if exists|i: int|
                #![trigger rest[i]]
                0 <= i < rest.len() && rest[i] == 2 && forall|j: int| 0 <= j < i ==> rest[j] != 0 {
                let i = choose|i: int|
                    #![trigger rest[i]]
                    0 <= i < rest.len() && rest[i] == 2 && forall|j: int| 0 <= j < i ==> rest[j] != 0;
                assert(l[i + 1] == 2);
                assert forall|j: int| 0 <= j < i + 1 implies l[j] != 0 by {
                    if j > 0 {
                        assert(rest[j - 1] != 0);
                    }
                }
            }
        }
    }
}

proof fn lemma_optional(present: bool, ty: u16, data: Seq<u8>, e: ExtensionView)
    ensures
        optional(present, ty, data).contains(e) == (present && e == (ty, data)),
{
    let l = optional(present, ty, data);
    if present {
        assert(l[0] == (ty, data));
    }
}

proof fn lemma_joined_contains(a: Seq<ExtensionView>, b: Seq<ExtensionView>, e: ExtensionView)
    ensures
        (a + b).contains(e) == (a.contains(e) || b.contains(e)),
{
    let l = a + b;
    if a.contains(e) {
        let i = choose|i: int| 0 <= i < a.len() && a[i] == e;
        assert(l[i] == e);
    }
    if b.contains(e) {
        let i = choose|i: int| 0 <= i < b.len() && b[i] == e;
        assert(l[a.len() + i] == e);
    }
    if l.contains(e) {
        let i = choose|i: int| 0 <= i < l.len() && l[i] == e;
        if i < a.len() {
            assert(a[i] == e);
        } else {
            assert(b[i - a.len()] == e);
        }
    }
}

/// What a server answers in its EncryptedExtensions is what was settled.
pub proof fn law_extensions_answer_offers(v: ServerView, t: FlightTerms)
    ensures
        extensions_answer(
            v,
            t,
            answers(
                v.config.source.cert_type(),
                client_cert_type(t.offers.client_types),
                t.offers,
                v.config.transport_params,
                t.early,
            ),
        ),
{
    let o = t.offers;
    let st = v.config.source.cert_type();
    let ct = client_cert_type(o.client_types);
    let protocol = alpn_bytes(seq![o.alpn->0]);
    let a = optional(o.server_types is Some, 20, seq![st]);
    let b = optional(o.client_types is Some, 19, seq![ct]);
    let c = optional(o.quic, 57, v.config.transport_params);
    let d = optional(o.alpn is Some, 16, protocol);
    let e = optional(t.early, 42, Seq::empty());
    let l = answers(st, ct, o, v.config.transport_params, t.early);
    assert(l == a + b + c + d + e);
    if o.client_types is Some {
        lemma_asked_type(o.client_types->0);
    }
    if o.alpn is Some {
        let one = seq![o.alpn->0];
        assert(one.skip(1) =~= Seq::empty());
        assert(put_all(vec8_enc(), one.skip(1)) =~= Seq::empty());
        assert(put_all(vec8_enc(), one) =~= vec8(o.alpn->0));
    }
    assert forall|x: ExtensionView| #![trigger l.contains(x)] l.contains(x) <==> {
        ||| x.0 == 20 && o.server_types is Some && x.1 == seq![st]
        ||| x.0 == 19 && o.client_types is Some && x.1 == seq![asked_type(o.client_types->0)]
        ||| x.0 == 57 && o.quic && x.1 == v.config.transport_params
        ||| x.0 == 16 && o.alpn is Some && x.1 == vec16(vec8(o.alpn->0))
        ||| x.0 == 42 && t.early && x.1 == Seq::<u8>::empty()
    } by {
        lemma_joined_contains(a + b + c + d, e, x);
        lemma_joined_contains(a + b + c, d, x);
        lemma_joined_contains(a + b, c, x);
        lemma_joined_contains(a, b, x);
        lemma_optional(o.server_types is Some, 20, seq![st], x);
        lemma_optional(o.client_types is Some, 19, seq![ct], x);
        lemma_optional(o.quic, 57, v.config.transport_params, x);
        lemma_optional(o.alpn is Some, 16, protocol, x);
        lemma_optional(t.early, 42, Seq::empty(), x);
    }
}

/// The messages of a flight, as the server makes them.
spec fn parts(v: ServerView, t: FlightTerms, x: HelloInputs) -> FlightParts {
    let (v1, o) = opening(v, t, (x.exchange->0).0, (x.exchange->0).1, x.random->0);
    let verify = if t.psk is None {
        certificate_verify(v.config.source.key().scheme(), x.signature->0).bytes()
    } else {
        Seq::empty()
    };
    FlightParts {
        hello: server_hello(x.random->0, t.session_id, v.suite->0, t.group, (x.exchange->0).0, t.psk is Some).bytes(),
        extensions: HandshakeView::EncryptedExtensions(
            answers(
                v.config.source.cert_type(),
                client_cert_type(t.offers.client_types),
                t.offers,
                v.config.transport_params,
                t.early,
            ),
        ).bytes(),
        request: if asks_client(v, t) {
            certificate_request().bytes()
        } else {
            Seq::empty()
        },
        certificate: if t.psk is None {
            certificate_message(v.config.source.presented()->Ok_0).bytes()
        } else {
            Seq::empty()
        },
        verify,
        finished: HandshakeView::Finished(
            finished_mac(v.alg(), o->Ok_0.s_hs, v1.grown(verify).hash()),
        ).bytes(),
    }
}

proof fn lemma_stage(alg: Algorithm, psk: Option<AcceptedPskView>, dhe: Seq<u8>)
    requires
        hashes_fit(alg),
    ensures
        stage_secret(alg, psk, dhe) == client_stage(
            alg,
            match psk {
                Some(a) => Some(a.ticket.psk),
                None => None,
            },
            dhe,
        ),
{
    let key = match psk {
        Some(a) => a.ticket.psk,
        None => no_secret(alg),
    };
    let early = hmac_of(alg, no_secret(alg), key);
    assert(zero_bytes(hash_len(alg)) =~= no_secret(alg));
    assert(digest_of(alg, Seq::empty()).len() == hash_len(alg));
    law_key_schedule(alg, key, dhe, early, Seq::empty());
}

proof fn lemma_secrets(alg: Algorithm, secret: Seq<u8>, hash: Seq<u8>)
    requires
        hashes_fit(alg),
        hash.len() == hash_len(alg),
    ensures
        traffic(alg, secret, label_bytes("c hs traffic"), hash) == code(alg, secret, c_hs_label(), hash, hash_len(alg)),
        traffic(alg, secret, label_bytes("s hs traffic"), hash) == code(alg, secret, s_hs_label(), hash, hash_len(alg)),
        traffic(alg, secret, label_bytes("c ap traffic"), hash) == code(alg, secret, c_ap_label(), hash, hash_len(alg)),
        traffic(alg, secret, label_bytes("s ap traffic"), hash) == code(alg, secret, s_ap_label(), hash, hash_len(alg)),
        traffic(alg, secret, label_bytes("exp master"), hash) == code(
            alg,
            secret,
            exp_master_label(),
            hash,
            hash_len(alg),
        ),
        traffic(alg, secret, label_bytes("res master"), hash) == code(
            alg,
            secret,
            res_master_label(),
            hash,
            hash_len(alg),
        ),
        master_secret(alg, secret) == client_master(alg, secret),
{
    assert(digest_of(alg, Seq::empty()).len() == hash_len(alg));
    law_key_schedule(alg, secret, secret, secret, hash);
}

proof fn lemma_server_hello(ch: ClientHelloView, suite: CipherSuite, group: KexGroup, resumed: bool, x: HelloInputs)
    requires
        chosen_suite(ch.cipher_suites) == Some(suite),
    ensures
        server_hello(
            x.random->0,
            ch.legacy_session_id,
            suite,
            group,
            (x.exchange->0).0,
            resumed,
        ) matches HandshakeView::ServerHello(sh) && is_answer(sh, ch, suite, group, x, resumed),
{
    assert(be16(0x0304) =~= seq![3u8, 4]);
    assert(be16(0) =~= seq![0u8, 0]);
}

/// What the server has after its flight, in its own terms.
spec fn sent(v: ServerView, t: FlightTerms, x: HelloInputs, p: FlightParts, after: ServerView, events: Seq<EventView>) -> bool {
    let alg = v.alg();
    let hello = v.transcript + p.hello;
    let signed = hello + p.extensions + p.request + p.certificate;
    let all = signed + p.verify + p.finished;
    let stage = stage_secret(alg, t.psk, (x.exchange->0).1);
    let master = master_secret(alg, stage);
    let c_hs = traffic(alg, stage, label_bytes("c hs traffic"), digest_of(alg, hello));
    let s_hs = traffic(alg, stage, label_bytes("s hs traffic"), digest_of(alg, hello));
    let c_ap = traffic(alg, master, label_bytes("c ap traffic"), digest_of(alg, all));
    let s_ap = traffic(alg, master, label_bytes("s ap traffic"), digest_of(alg, all));
    &&& p.finished == HandshakeView::Finished(
        finished_mac(alg, s_hs, digest_of(alg, signed + p.verify)),
    ).bytes()
    &&& events == t.offers.events + early_events(v, t) + seq![
        EventView::Send { epoch: Epoch::Plaintext, data: p.hello },
        EventView::KeysReady { epoch: Epoch::Handshake, read_secret: c_hs, write_secret: s_hs },
        EventView::Send {
            epoch: Epoch::Handshake,
            data: p.extensions + p.request + p.certificate + p.verify + p.finished,
        },
        EventView::KeysReady { epoch: Epoch::Application, read_secret: c_ap, write_secret: s_ap },
    ]
    &&& after.transcript == all
    &&& after.suite == v.suite
    &&& after.c_hs == Some(c_hs)
    &&& after.c_ap == Some(c_ap)
    &&& after.s_ap == Some(s_ap)
    &&& after.exporter == Some(traffic(alg, master, label_bytes("exp master"), digest_of(alg, all)))
    &&& after.master matches Some(m) && m.alg == alg && m.secret == master
    &&& if t.early {
        &&& after.state == State::ExpectEndOfEarlyData
        &&& after.early_data_remaining == Some(16384u32)
    } else if t.psk is None && v.client_auth is Some {
        after.state == State::ExpectClientCertificate
    } else {
        &&& after.state == State::ExpectClientFinished
        &&& after.expected_finished == Some(finished_mac(alg, c_hs, digest_of(alg, all)))
    }
}

#[verifier::rlimit(40)]
proof fn lemma_sent(v: ServerView, t: FlightTerms, x: HelloInputs)
    requires
        flight(v, t, x).1 is Ok,
    ensures
        sent(v, t, x, parts(v, t, x), flight(v, t, x).0, flight(v, t, x).1->Ok_0),
        t.psk is None ==> v.config.source.presented() is Ok && x.signature is Some,
{
    let (v1, opened) = opening(v, t, (x.exchange->0).0, (x.exchange->0).1, x.random->0);
    let o = opened->Ok_0;
    let p = parts(v, t, x);
    let (after, out) = closing(v1, t, o, x.signature);
    let hello = v.transcript + p.hello;
    let signed = hello + p.extensions + p.request + p.certificate;
    let all = signed + p.verify + p.finished;
    assert(v1.transcript =~= signed);
    assert(after.transcript =~= all);
    assert(o.blob =~= p.extensions + p.request + p.certificate);
    assert(v1.grown(p.verify).transcript =~= signed + p.verify);
    let events = flight(v, t, x).1->Ok_0;
    assert(o.blob + p.verify + p.finished =~= p.extensions + p.request + p.certificate + p.verify + p.finished);
    assert(events =~= t.offers.events + early_events(v, t) + out->Ok_0);
    assert(out->Ok_0 =~= seq![out->Ok_0[0], out->Ok_0[1], out->Ok_0[2], out->Ok_0[3]]);
}

/// A client follows a server's flight: from the messages on the wire, the secret of
/// the key exchange and the key of its ticket it computes the secrets that the server
/// has, and the Finished messages of both sides.
pub proof fn law_client_follows_the_flight(
    v: ServerView,
    ch: ClientHelloView,
    raw: Seq<u8>,
    suite: CipherSuite,
    group: KexGroup,
    client_share: Seq<u8>,
    x: HelloInputs,
)
    requires
        chosen_suite(ch.cipher_suites) == Some(suite),
        hello_terms(ch, v.config.source.key().scheme()) matches Ok((_, Some(c))) && c == (group, client_share),
        hello_step(v, ch, raw, x).1 is Ok,
        hashes_fit(suite_hash(suite)),
        hashes_fit(Algorithm::Sha256),
    ensures
        exists|p: FlightParts|
            #[trigger] follows(
                v,
                ch,
                raw,
                suite,
                group,
                settled(ServerView { suite: Some(suite), ..v }, ch, raw, group, x).1->Ok_0,
                x,
                p,
                hello_step(v, ch, raw, x).0,
                hello_step(v, ch, raw, x).1->Ok_0,
            ),
{
    let v1 = ServerView { suite: Some(suite), ..v };
    let (v2, terms) = settled(v1, ch, raw, group, x);
    let t = terms->Ok_0;
    lemma_sent(v2, t, x);
    let p = parts(v2, t, x);
    lemma_wire(v, ch, suite, group, v2, t, x);
    lemma_follows(v, ch, raw, suite, group, v2, t, x, hello_step(v, ch, raw, x).0, hello_step(v, ch, raw, x).1->Ok_0);
    assert(follows(
        v,
        ch,
        raw,
        suite,
        group,
        t,
        x,
        p,
        hello_step(v, ch, raw, x).0,
        hello_step(v, ch, raw, x).1->Ok_0,
    ));
}

proof fn lemma_wire(
    v: ServerView,
    ch: ClientHelloView,
    suite: CipherSuite,
    group: KexGroup,
    v2: ServerView,
    t: FlightTerms,
    x: HelloInputs,
)
    requires
        chosen_suite(ch.cipher_suites) == Some(suite),
        v2.suite == Some(suite),
        v2.config == v.config,
        v2.client_auth == v.client_auth,
        t.group == group,
        t.session_id == ch.legacy_session_id,
        t.psk is None ==> v.config.source.presented() is Ok && x.signature is Some,
    ensures
        on_wire(v, ch, suite, group, t, x, parts(v2, t, x)),
{
    let p = parts(v2, t, x);
    lemma_server_hello(ch, suite, group, t.psk is Some, x);
    law_extensions_answer_offers(v2, t);
    let l = answers(
        v.config.source.cert_type(),
        client_cert_type(t.offers.client_types),
        t.offers,
        v.config.transport_params,
        t.early,
    );
    assert(extensions_answer(v, t, l));
    assert(p.extensions == HandshakeView::EncryptedExtensions(l).bytes());
    if t.psk is None {
        let chain = v.config.source.presented()->Ok_0;
        law_certificate_carries_the_chain(chain);
        let m = certificate_message(chain)->Certificate_0;
        assert(p.certificate == HandshakeView::Certificate(m).bytes());
    }
}

#[verifier::rlimit(40)]
proof fn lemma_follows(
    v: ServerView,
    ch: ClientHelloView,
    raw: Seq<u8>,
    suite: CipherSuite,
    group: KexGroup,
    v2: ServerView,
    t: FlightTerms,
    x: HelloInputs,
    after: ServerView,
    events: Seq<EventView>,
)
    requires
        v2.suite == Some(suite),
        v2.transcript == v.transcript + raw,
        v2.client_auth == v.client_auth,
        t.early ==> t.psk is Some,
        on_wire(v, ch, suite, group, t, x, parts(v2, t, x)),
        sent(v2, t, x, parts(v2, t, x), after, events),
        hashes_fit(suite_hash(suite)),
        hashes_fit(Algorithm::Sha256),
    ensures
        follows(v, ch, raw, suite, group, t, x, parts(v2, t, x), after, events),
{
    let alg = suite_hash(suite);
    let p = parts(v2, t, x);
    let dhe = (x.exchange->0).1;
    lemma_stage(alg, t.psk, dhe);
    let hello = v.transcript + raw + p.hello;
    let signed = hello + p.extensions + p.request + p.certificate;
    let all = signed + p.verify + p.finished;
    let stage = stage_secret(alg, t.psk, dhe);
    let master = client_master(alg, stage);
    lemma_secrets(alg, stage, digest_of(alg, hello));
    lemma_secrets(alg, master, digest_of(alg, all));
    assert(digest_of(Algorithm::Sha256, Seq::empty()).len() == 32);
    law_finished_is_a_code(alg, secret_over(alg, stage, s_hs_label(), hello), digest_of(alg, signed + p.verify));
    law_finished_is_a_code(alg, secret_over(alg, stage, c_hs_label(), hello), digest_of(alg, all));
    let before = t.offers.events + early_events(v2, t);
    let n = events.len();
    assert(n == before.len() + 4);
    assert(events[n - 4] == (EventView::Send { epoch: Epoch::Plaintext, data: p.hello }));
    if t.early {
        assert(digest_of(Algorithm::Sha256, v2.transcript).len() == 32);
        law_resumption_keys(t.psk->0.ticket.psk, digest_of(Algorithm::Sha256, v2.transcript));
        assert(events[n - 5] == early_events(v2, t)[0]);
    }
}

/// What a client signs, given the hash of the messages.
pub open spec fn client_signed_over(hash: Seq<u8>) -> Seq<u8> {
    Seq::new(64, |i: int| 0x20u8) + seq![
        0x54u8,
        0x4c,
        0x53,
        0x20,
        0x31,
        0x2e,
        0x33,
        0x2c,
        0x20,
        0x63,
        0x6c,
        0x69,
        0x65,
        0x6e,
        0x74,
        0x20,
        0x43,
        0x65,
        0x72,
        0x74,
        0x69,
        0x66,
        0x69,
        0x63,
        0x61,
        0x74,
        0x65,
        0x56,
        0x65,
        0x72,
        0x69,
        0x66,
        0x79,
        0,
    ] + hash
}

/// What each side signs is what the other one checks, and says which side it is.
pub proof fn law_signatures_are_over_the_messages(hash: Seq<u8>)
    ensures
        verify_message(hash, true) == signed_over(hash),
        verify_message(hash, false) == client_signed_over(hash),
{
    assert(verify_message(hash, true) =~= signed_over(hash));
    assert(verify_message(hash, false) =~= client_signed_over(hash));
}

/// The server's signature is its key's, over all messages up to its Certificate.
pub proof fn law_server_signs_its_messages(
    e: Embedder,
    v: ServerView,
    ch: ClientHelloView,
    raw: Seq<u8>,
    suite: CipherSuite,
    group: KexGroup,
    client_share: Seq<u8>,
    x: HelloInputs,
)
    requires
        chosen_suite(ch.cipher_suites) == Some(suite),
        hello_terms(ch, v.config.source.key().scheme()) matches Ok((_, Some(c))) && c == (group, client_share),
        hello_step(v, ch, raw, x).1 is Ok,
        hello_inputs(e, v, ch, raw, x),
        settled(ServerView { suite: Some(suite), ..v }, ch, raw, group, x).1->Ok_0.psk is None,
    ensures
        ({
            let t = settled(ServerView { suite: Some(suite), ..v }, ch, raw, group, x).1->Ok_0;
            exists|p: FlightParts|
                #![trigger on_wire(v, ch, suite, group, t, x, p)]
                {
                    &&& on_wire(v, ch, suite, group, t, x, p)
                    &&& hello_step(v, ch, raw, x).0.transcript == v.transcript + raw + p.hello + p.extensions
                        + p.request + p.certificate + p.verify + p.finished
                    &&& v.config.source.key().signs(
                        signed_over(
                            digest_of(
                                suite_hash(suite),
                                v.transcript + raw + p.hello + p.extensions + p.request + p.certificate,
                            ),
                        ),
                        x.signature->0,
                    )
                }
        }),
{
    reveal(hello_inputs);
    let v1 = ServerView { suite: Some(suite), ..v };
    let (v2, terms) = settled(v1, ch, raw, group, x);
    let t = terms->Ok_0;
    let p = parts(v2, t, x);
    lemma_sent(v2, t, x);
    lemma_wire(v, ch, suite, group, v2, t, x);
    let (v3, opened) = opening(v2, t, (x.exchange->0).0, (x.exchange->0).1, x.random->0);
    assert(v3.transcript =~= v.transcript + raw + p.hello + p.extensions + p.request + p.certificate);
    law_signatures_are_over_the_messages(v3.hash());
}

/// A client without a usable share is asked for one in a group that both support: the
/// messages start over with the hash of its first ClientHello.
pub proof fn law_retry_request(v: ServerView, ch: ClientHelloView, raw: Seq<u8>, suite: CipherSuite, group: KexGroup, x: HelloInputs)
    requires
        chosen_suite(ch.cipher_suites) == Some(suite),
        hello_terms(ch, v.config.source.key().scheme()) == Ok::<(KexGroup, Option<(KexGroup, Seq<u8>)>), Error>(
            (group, None),
        ),
        !v.hrr_done,
    ensures
        ({
            let (after, out) = hello_step(v, ch, raw, x);
            &&& out matches Ok(events) && events.len() == 1 && exists|sh: ServerHelloView|
                #![trigger HandshakeView::ServerHello(sh).bytes()]
                {
                    let request = HandshakeView::ServerHello(sh).bytes();
                    &&& events[0] == (EventView::Send { epoch: Epoch::Plaintext, data: request })
                    &&& after.transcript == seq![
                        254u8,
                        0,
                        0,
                        digest_of(suite_hash(suite), raw).len() as u8,
                    ] + digest_of(suite_hash(suite), raw) + request
                    &&& sh.legacy_version == 0x0303
                    &&& sh.random == retry_random()
                    &&& sh.legacy_session_id_echo == ch.legacy_session_id
                    &&& sh.cipher_suite == suite_id(suite)
                    &&& sh.legacy_compression_method == 0
                    &&& sh.extensions == seq![(43u16, seq![3u8, 4]), (51u16, be16(group_id(group)))]
                }
            &&& after.hrr_done
            &&& after.state == v.state
            &&& after.suite == Some(suite)
            &&& after == (ServerView {
                hrr_done: true,
                suite: Some(suite),
                transcript: after.transcript,
                ..v
            })
        }),
{
    assert(be16(0x0304) =~= seq![3u8, 4]);
    let sh = retry_request(ch.legacy_session_id, suite, group)->ServerHello_0;
    assert(sh.random =~= retry_random());
    assert(sh.extensions =~= seq![(43u16, seq![3u8, 4]), (51u16, be16(group_id(group)))]);
    let request = HandshakeView::ServerHello(sh).bytes();
}

/// The hash of "HelloRetryRequest", which marks the request.
pub open spec fn retry_random() -> Seq<u8> {
    seq![
        0xcfu8,
        0x21,
        0xad,
        0x74,
        0xe5,
        0x9a,
        0x61,
        0x11,
        0xbe,
        0x1d,
        0x8c,
        0x02,
        0x1e,
        0x65,
        0xb8,
        0x91,
        0xc2,
        0xa2,
        0x11,
        0x16,
        0x7a,
        0xbb,
        0x8c,
        0x5e,
        0x07,
        0x9e,
        0x09,
        0xe2,
        0xc8,
        0xa8,
        0x33,
        0x9c,
    ]
}

/// The traffic secret after `n` updates, each a code under the one before.
pub open spec fn updated_times(alg: Algorithm, secret: Seq<u8>, n: nat) -> Seq<u8>
    decreases n,
{
    if n == 0 {
        secret
    } else {
        code(
            alg,
            updated_times(alg, secret, (n - 1) as nat),
            traffic_upd_label(),
            Seq::empty(),
            hash_len(alg),
        )
    }
}

/// The server after a number of KeyUpdates.
pub open spec fn after_updates(v: ServerView, requests: Seq<u8>) -> ServerView
    decreases requests.len(),
{
    if requests.len() == 0 {
        v
    } else {
        key_update_step(after_updates(v, requests.drop_last()), requests.last()).0
    }
}

/// How many of several KeyUpdates ask for an answer.
pub open spec fn asking(requests: Seq<u8>) -> nat
    decreases requests.len(),
{
    if requests.len() == 0 {
        0
    } else {
        asking(requests.drop_last()) + if requests.last() == 1 {
            1nat
        } else {
            0
        }
    }
}

/// A client and a server that share a client's traffic secret still do after a
/// KeyUpdate of the client: the server's is the next one, and the embedder is told it.
/// Its own secret goes on only where the client asks for that.
pub proof fn law_key_update_keeps_step(v: ServerView, request: u8)
    requires
        v.c_ap is Some,
        v.s_ap is Some,
        v.key_updates < MAX_KEY_UPDATES_WITHOUT_APP_DATA,
    ensures
        ({
            let (after, out) = key_update_step(v, request);
            let read = code(v.alg(), v.c_ap->0, traffic_upd_label(), Seq::empty(), hash_len(v.alg()));
            let write = code(v.alg(), v.s_ap->0, traffic_upd_label(), Seq::empty(), hash_len(v.alg()));
            &&& after.c_ap == Some(read)
            &&& after.s_ap == if request == 1 {
                Some(write)
            } else {
                v.s_ap
            }
            &&& after.key_updates == v.key_updates + 1
            &&& after == (ServerView {
                c_ap: after.c_ap,
                s_ap: after.s_ap,
                key_updates: after.key_updates,
                ..v
            })
            &&& out matches Ok(events) && events.len() == if request == 1 {
                3int
            } else {
                1
            }
            &&& out->Ok_0[0] == (EventView::KeyUpdate { direction: KeyDirection::Read, secret: read })
            &&& request == 1 ==> out->Ok_0[1] == (EventView::Send {
                epoch: Epoch::Application,
                data: seq![24u8, 0, 0, 1, 0],
            }) && out->Ok_0[2] == (EventView::KeyUpdate { direction: KeyDirection::Write, secret: write })
        }),
{
    law_traffic_keys(v.alg(), v.c_ap->0, hash_len(v.alg()));
    law_traffic_keys(v.alg(), v.s_ap->0, hash_len(v.alg()));
    assert(HandshakeView::KeyUpdate(0).bytes() =~= seq![24u8, 0, 0, 1, 0]);
}

/// After any number of KeyUpdates the client's secret was updated as many times, and
/// the server's as many times as the client asked for it.
pub proof fn law_key_updates_stay_in_step(v: ServerView, requests: Seq<u8>)
    requires
        v.c_ap is Some,
        v.s_ap is Some,
        v.key_updates + requests.len() <= MAX_KEY_UPDATES_WITHOUT_APP_DATA,
    ensures
        after_updates(v, requests).c_ap == Some(updated_times(v.alg(), v.c_ap->0, requests.len())),
        after_updates(v, requests).s_ap == Some(updated_times(v.alg(), v.s_ap->0, asking(requests))),
        after_updates(v, requests).suite == v.suite,
        after_updates(v, requests).key_updates == v.key_updates + requests.len(),
    decreases requests.len(),
{
    if requests.len() > 0 {
        let before = requests.drop_last();
        law_key_updates_stay_in_step(v, before);
        law_key_update_keeps_step(after_updates(v, before), requests.last());
    }
}

/// A KeyUpdate of the server's own is sent under the old keys, and its secret goes on;
/// the client's does not.
pub proof fn law_own_key_update(v: ServerView, request: bool)
    requires
        v.state == State::Done,
        v.s_ap is Some,
    ensures
        ({
            let (after, out) = send_key_update_step(v, request);
            let write = code(v.alg(), v.s_ap->0, traffic_upd_label(), Seq::empty(), hash_len(v.alg()));
            &&& after == (ServerView { s_ap: Some(write), ..v })
            &&& out == Ok::<Seq<EventView>, Error>(
                seq![
                    EventView::Send {
                        epoch: Epoch::Application,
                        data: seq![
                            24u8,
                            0,
                            0,
                            1,
                            if request {
                                1
                            } else {
                                0
                            },
                        ],
                    },
                    EventView::KeyUpdate { direction: KeyDirection::Write, secret: write },
                ],
            )
        }),
{
    law_traffic_keys(v.alg(), v.s_ap->0, hash_len(v.alg()));
    assert(HandshakeView::KeyUpdate(0).bytes() =~= seq![24u8, 0, 0, 1, 0]);
    assert(HandshakeView::KeyUpdate(1).bytes() =~= seq![24u8, 0, 0, 1, 1]);
    assert(send_key_update_step(v, request).1->Ok_0 =~= seq![
        send_key_update_step(v, request).1->Ok_0[0],
        send_key_update_step(v, request).1->Ok_0[1],
    ]);
}

/// Before and without a handshake nothing is updated.
pub proof fn law_no_key_update_before_done(v: ServerView, request: bool)
    requires
        v.state != State::Done,
    ensures
        send_key_update_step(v, request) == (v, Err::<Seq<EventView>, Error>(Error::UnexpectedMessage)),
{
}

/// An authentication code has the length of its hash.
pub open spec fn codes_fit(alg: Algorithm) -> bool {
    forall|k: Seq<u8>, d: Seq<u8>| (#[trigger] hmac_of(alg, k, d)).len() == hash_len(alg)
}

/// Under a key the cipher opens what it seals, which is sixteen bytes longer.
pub open spec fn opens_what_it_seals(key: Seq<u8>) -> bool {
    forall|nonce: Seq<u8>, p: Seq<u8>|
        #![trigger sealed(AeadAlgorithm::Aes128Gcm, key, nonce, Seq::empty(), p)]
        nonce.len() == 12 ==> {
            let c = sealed(AeadAlgorithm::Aes128Gcm, key, nonce, Seq::empty(), p);
            c.len() == p.len() + 16 && opened(AeadAlgorithm::Aes128Gcm, key, nonce, Seq::empty(), c) == Some(p)
        }
}

/// What the ticket of a session says: the key that client and server both derive for
/// it, and the session's protocol, suite and time.
pub open spec fn session_of(v: ServerView, x: TicketInputs) -> TicketView {
    let h = Algorithm::Sha256;
    TicketView {
        psk: code(
            h,
            code(h, v.master->0.secret, res_master_label(), digest_of(h, v.transcript), 32),
            resumption_label(),
            x.nonce->0,
            32,
        ),
        age_add: x.age_add->0,
        issued_at_ms: x.now,
        suite: suite_id(v.suite->0),
        alpn: if v.alpn is Some {
            v.alpn->0
        } else {
            Seq::empty()
        },
    }
}

/// Whether a server has all it needs to issue a ticket.
pub open spec fn can_issue(v: ServerView, x: TicketInputs) -> bool {
    &&& v.master is Some && v.master->0.alg == Algorithm::Sha256
    &&& v.config.ticket_keys is Some
    &&& v.suite is Some
    &&& v.alpn matches Some(p) ==> p.len() <= 255
    &&& x.nonce matches Some(n) && n.len() == 8
    &&& x.age_add is Some
    &&& x.seal_nonce matches Some(n) && n.len() == 12
}

/// The ticket that a server issues is its session: the client is sent what it derives
/// the key from, and a ticket that the server's own keys open to that key and to the
/// session's protocol, suite and time.
pub proof fn law_ticket_is_the_session(v: ServerView, x: TicketInputs)
    requires
        can_issue(v, x),
        hashes_fit(Algorithm::Sha256),
        codes_fit(Algorithm::Sha256),
        opens_what_it_seals(ticket_key(v.config.ticket_keys->0.current)),
    ensures
        ticket_step(v, x) matches Ok(events) && events.len() == 2 && {
            &&& events[1] == (EventView::ResumptionSecret { psk: session_of(v, x).psk })
            &&& exists|m: NewSessionTicketView|
                #![trigger HandshakeView::NewSessionTicket(m).bytes()]
                {
                    &&& events[0] == (EventView::Send {
                        epoch: Epoch::Application,
                        data: HandshakeView::NewSessionTicket(m).bytes(),
                    })
                    &&& m.ticket_lifetime == 7200
                    &&& m.ticket_age_add == x.age_add->0
                    &&& m.ticket_nonce == x.nonce->0
                    &&& m.extensions == if v.config.accept_early_data {
                        seq![(42u16, be32(16384))]
                    } else {
                        Seq::empty()
                    }
                    &&& accepted_ticket(v.config.ticket_keys->0, m.ticket) == Ok::<TicketView, TicketError>(
                        session_of(v, x),
                    )
                }
        },
{
    let keys = v.config.ticket_keys->0;
    let t = session_of(v, x);
    lemma_session_key(v, x);
    let ticket = sealed_ticket(ticket_key(keys.current), x.seal_nonce->0, t);
    lemma_ticket_opens(ticket_key(keys.current), x.seal_nonce->0, t);
    let m = session_ticket(x.age_add->0, x.nonce->0, ticket, v.config.accept_early_data)->NewSessionTicket_0;
    let data = HandshakeView::NewSessionTicket(m).bytes();
    assert(m.extensions =~= if v.config.accept_early_data {
        seq![(42u16, be32(16384))]
    } else {
        Seq::empty()
    });
    assert(ticket_step(v, x)->Ok_0[0] == (EventView::Send { epoch: Epoch::Application, data }));
}

proof fn lemma_session_key(v: ServerView, x: TicketInputs)
    requires
        can_issue(v, x),
        hashes_fit(Algorithm::Sha256),
        codes_fit(Algorithm::Sha256),
    ensures
        session_psk(v, v.master->0.secret, x.nonce->0) == session_of(v, x).psk,
        session_of(v, x).psk.len() == 32,
{
    reveal(session_psk);
    let h = Algorithm::Sha256;
    let hash = digest_of(h, v.transcript);
    assert(hash.len() == 32);
    lemma_secrets(h, v.master->0.secret, hash);
    let resumption = code(h, v.master->0.secret, res_master_label(), hash, 32);
    law_resumption_keys(resumption, x.nonce->0);
    let full = hmac_of(h, resumption, purpose(resumption_label(), x.nonce->0, 32) + seq![1u8]);
    assert(full.len() == 32);
}

proof fn lemma_ticket_opens(key: Seq<u8>, nonce: Seq<u8>, t: TicketView)
    requires
        opens_what_it_seals(key),
        nonce.len() == 12,
        t.psk.len() == 32,
        t.alpn.len() <= 255,
    ensures
        opened_ticket(key, sealed_ticket(key, nonce, t)) == Ok::<TicketView, TicketError>(t),
{
    let ticket = sealed_ticket(key, nonce, t);
    law_content_round_trip(t);
    let body = sealed(AeadAlgorithm::Aes128Gcm, key, nonce, Seq::empty(), plaintext_of(t));
    assert(plaintext_of(t).len() == 47 + t.alpn.len());
    assert(ticket.take(12) =~= nonce);
    assert(ticket.skip(12) =~= body);
}

/// Only under SHA-256, and with keys for it, is a ticket issued at all.
pub proof fn law_no_ticket_without_keys(v: ServerView, x: TicketInputs)
    requires
        v.config.ticket_keys is None || (v.master is Some && v.master->0.alg == Algorithm::Sha384),
    ensures
        ticket_step(v, x) == Ok::<Seq<EventView>, Error>(Seq::empty()),
{
}

/// What a client derives from a session is what the server sealed for it, so early
/// data that a client offers with the ticket of a session on a new connection with the
/// session's protocol and suite comes to the question of freshness; with another
/// protocol or suite it does not.
pub proof fn law_session_takes_early_data(
    v: ServerView,
    x: TicketInputs,
    w: ServerView,
    exts: Seq<ExtensionView>,
    p: AcceptedPskView,
)
    requires
        can_issue(v, x),
        p.ticket == session_of(v, x),
        w.config.accept_early_data,
        w.suite is Some,
        find_extension(exts, 42) is Some,
        v.alpn != Some(Seq::<u8>::empty()),
        w.alpn != Some(Seq::<u8>::empty()),
    ensures
        early_asked(w, exts, Some(p)) <==> w.alpn == v.alpn && w.suite == v.suite,
{
    if suite_id(v.suite->0) == suite_id(w.suite->0) {
        law_suite_ids_distinct(v.suite->0, w.suite->0);
    }
}

/// Early data is taken exactly if the server takes any and has a guard, the client
/// sends some, under a ticket of the same protocol and suite that is fresh.
pub proof fn law_early_data_eligible(v: ServerView, exts: Seq<ExtensionView>, psk: Option<AcceptedPskView>, now: u64)
    ensures
        early_eligible(v, exts, psk, now) <==> {
            &&& v.config.accept_early_data
            &&& v.has_guard
            &&& find_extension(exts, 42) is Some
            &&& psk matches Some(p) && {
                &&& p.ticket.alpn == if v.alpn is Some {
                    v.alpn->0
                } else {
                    Seq::empty()
                }
                &&& v.suite matches Some(s) && p.ticket.suite == suite_id(s)
                &&& fresh_at(p, now)
            }
        },
{
    if let Some(p) = psk {
        lemma_fresh(p, now);
    }
}

/// How old a client says that its ticket is: what it sent, less what the age was
/// obscured with, around the clock.
pub open spec fn said_age(p: AcceptedPskView) -> int {
    (p.obfuscated_ticket_age - p.ticket.age_add) % 0x1_0000_0000
}

/// Whether a ticket is fresh: it was issued, no longer ago than its lifetime, and the
/// client says its age within ten seconds.
pub open spec fn fresh_at(p: AcceptedPskView, now: u64) -> bool {
    let age = now - p.ticket.issued_at_ms;
    &&& p.ticket.issued_at_ms <= now
    &&& age <= 7_200_000
    &&& age - said_age(p) <= 10_000
    &&& said_age(p) - age <= 10_000
}

proof fn lemma_fresh(p: AcceptedPskView, now: u64)
    ensures
        is_fresh(p, now) == fresh_at(p, now),
{
}

/// A ticket is accepted exactly if the client goes on with a key exchange, the ticket
/// is its first, the server's keys open it, it is in its lifetime, and its binder is a
/// code, under a key of the ticket's, over the messages up to the binders.
pub proof fn law_ticket_accepted(
    keys: TicketKeysView,
    now: u64,
    before: Seq<u8>,
    exts: Seq<ExtensionView>,
    raw: Seq<u8>,
)
    requires
        hashes_fit(Algorithm::Sha256),
    ensures
        accepted_psk(keys, now, before, exts, raw) == match (
            find_extension(exts, 45),
            find_extension(exts, 41),
        ) {
            (Some(modes), Some(offer)) => match (whole(get_vec8(modes)), get_offer(offer)) {
                (Ok(l), Ok((ids, binders))) => if l.contains(1) && ids.len() > 0 && binders[0].len() == 32
                    && raw.len() >= 35 {
                    match accepted_ticket(keys, ids[0].0) {
                        Ok(t) => if t.issued_at_ms <= now + 10_000 && now <= t.issued_at_ms + 7_200_000
                            && binders[0] == bound_to(t.psk, before + raw.take(raw.len() - 35)) {
                            Some(
                                AcceptedPskView {
                                    ticket: t,
                                    obfuscated_ticket_age: ids[0].1,
                                    binder: binders[0],
                                },
                            )
                        } else {
                            None
                        },
                        Err(_) => None,
                    }
                } else {
                    None
                },
                _ => None,
            },
            _ => None,
        },
{
    assert(digest_of(Algorithm::Sha256, Seq::empty()).len() == 32);
    if let Some((identity, age, bind)) = first_ticket(exts) {
        if let Ok(t) = accepted_ticket(keys, identity) {
            if raw.len() >= 35 {
                let partial = before + raw.take(raw.len() - 35);
                law_finished_is_a_code(Algorithm::Sha256, t.psk, digest_of(Algorithm::Sha256, partial));
            }
        }
    }
}

/// The binder of a ticket's key over messages.
pub open spec fn bound_to(psk: Seq<u8>, messages: Seq<u8>) -> Seq<u8> {
    let h = Algorithm::Sha256;
    let key = code(
        h,
        hmac_of(h, no_secret(h), psk),
        res_binder_label(),
        digest_of(h, Seq::empty()),
        32,
    );
    finished_over(h, key, messages)
}

/// The Finished message that a server expects is over all messages so far, whatever
/// the client sent since the server's flight.
pub proof fn law_expected_finished_is_over_all(
    v: ServerView,
    c: CertificateView,
    m: CertificateVerifyView,
    raw: Seq<u8>,
    allowed: bool,
)
    requires
        v.c_hs is Some,
        hashes_fit(v.alg()),
        hashes_fit(Algorithm::Sha256),
    ensures
        end_of_early_data_step(v, raw) == (
            ServerView {
                early_data_remaining: None,
                transcript: v.transcript + raw,
                expected_finished: Some(finished_over(v.alg(), v.c_hs->0, v.transcript + raw)),
                state: State::ExpectClientFinished,
                ..v
            },
            Ok::<Seq<EventView>, Error>(Seq::empty()),
        ),
        c.certificate_request_context.len() == 0 && c.certificate_list.len() == 0 && v.client_auth != Some(
            ClientAuth::Required,
        ) ==> certificate_step(v, c, raw) == (
            ServerView {
                transcript: v.transcript + raw,
                expected_finished: Some(finished_over(v.alg(), v.c_hs->0, v.transcript + raw)),
                state: State::ExpectClientFinished,
                ..v
            },
            Ok::<Seq<EventView>, Error>(Seq::empty()),
        ),
        certificate_verify_step(v, m, raw, allowed).1 is Ok ==> certificate_verify_step(v, m, raw, allowed) == (
            ServerView {
                transcript: v.transcript + raw,
                expected_finished: Some(finished_over(v.alg(), v.c_hs->0, v.transcript + raw)),
                state: State::ExpectClientFinished,
                ..v
            },
            Ok::<Seq<EventView>, Error>(Seq::empty()),
        ),
{
    let all = v.transcript + raw;
    law_finished_is_a_code(v.alg(), v.c_hs->0, digest_of(v.alg(), all));
}

/// A handshake completes exactly with the Finished message that is expected; then the
/// embedder is told first, and a ticket may follow.
pub proof fn law_finished_completes(v: ServerView, data: Seq<u8>, raw: Seq<u8>, x: TicketInputs)
    requires
        v.expected_finished is Some,
    ensures
        data != v.expected_finished->0 ==> finished_step(v, data, raw, x) == (
            v,
            Err::<Seq<EventView>, Error>(Error::BadFinished),
        ),
        data == v.expected_finished->0 ==> {
            let (after, out) = finished_step(v, data, raw, x);
            &&& after == (ServerView { state: State::Done, transcript: v.transcript + raw, ..v })
            &&& out is Ok == ticket_step(after, x) is Ok
            &&& out matches Ok(events) ==> events == seq![EventView::Done] + ticket_step(after, x)->Ok_0
        },
{
}

/// A client is let in exactly if its signature scheme is one that the server offers,
/// its signature over all messages so far verifies under the key that it presented,
/// and the embedder allows it.
pub proof fn law_client_let_in(v: ServerView, m: CertificateVerifyView, raw: Seq<u8>, allowed: bool)
    requires
        v.c_hs is Some,
        v.client_auth is Some,
    ensures
        certificate_verify_step(v, m, raw, allowed).1 is Ok <==> {
            &&& m.algorithm == 0x0403 || m.algorithm == 0x0503 || m.algorithm == 0x0804 || m.algorithm == 0x0805
                || m.algorithm == 0x0806 || m.algorithm == 0x0807
            &&& v.client_leaf matches Some(k) && leaf_verdict(
                k.0,
                k.1,
                m.algorithm,
                client_signed_over(digest_of(v.alg(), v.transcript)),
                m.signature,
            ) is Ok
            &&& allowed
        },
        certificate_verify_step(v, m, raw, allowed).1 is Err ==> certificate_verify_step(v, m, raw, allowed).0 == v,
{
    law_signatures_are_over_the_messages(v.hash());
    let l = x509_schemes();
    assert(l.contains(m.algorithm) <==> m.algorithm == 0x0403 || m.algorithm == 0x0503 || m.algorithm == 0x0804
        || m.algorithm == 0x0805 || m.algorithm == 0x0806 || m.algorithm == 0x0807) by {
        assert(l[0] == 0x0403 && l[1] == 0x0804 && l[2] == 0x0503 && l[3] == 0x0805 && l[4] == 0x0806 && l[5]
            == 0x0807);
    }
}

/// What a client presents is kept as it is: its key, and every certificate that it
/// sent, in order.
pub proof fn law_client_presents(v: ServerView, m: CertificateView, raw: Seq<u8>)
    requires
        m.certificate_request_context.len() == 0,
        m.certificate_list.len() > 0,
    ensures
        ({
            let (after, out) = certificate_step(v, m, raw);
            let first = m.certificate_list[0].cert_data;
            &&& out is Ok ==> {
                &&& out == Ok::<Seq<EventView>, Error>(Seq::empty())
                &&& after.state == State::ExpectClientCertVerify
                &&& after.transcript == v.transcript + raw
                &&& after == (ServerView {
                    client_leaf: after.client_leaf,
                    client_spki: after.client_spki,
                    client_chain: after.client_chain,
                    state: after.state,
                    transcript: after.transcript,
                    ..v
                })
                &&& if v.client_cert_type == 2 {
                    &&& m.certificate_list.len() == 1
                    &&& raw_leaf(first) == Ok::<(LeafKeyKind, Seq<u8>), Error>(after.client_leaf->0)
                    &&& after.client_spki == first
                    &&& after.client_chain.len() == 0
                } else {
                    &&& x509_leaf(first) == Ok::<(LeafKeyKind, Seq<u8>, Seq<u8>), Error>(
                        ((after.client_leaf->0).0, (after.client_leaf->0).1, after.client_spki),
                    )
                    &&& after.client_chain.len() == m.certificate_list.len()
                    &&& forall|i: int|
                        0 <= i < after.client_chain.len() ==> #[trigger] after.client_chain[i]
                            == m.certificate_list[i].cert_data
                }
                &&& after.client_leaf is Some
            }
            &&& out is Err ==> after == v
            &&& out is Ok <==> if v.client_cert_type == 2 {
                m.certificate_list.len() == 1 && raw_leaf(first) is Ok
            } else {
                x509_leaf(first) is Ok
            }
        }),
{
}

} // verus!
