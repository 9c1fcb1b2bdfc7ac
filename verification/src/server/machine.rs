//! What a server does, as a state machine over plain values. What comes from
//! outside (the clock, random numbers, the key exchange, a signature, the
//! embedder's verdicts) is an input of each step.

use vstd::prelude::*;

use crate::crypto::hash::{digest_of, hash_len, message_hash, Algorithm};
use crate::crypto::kdf::{derived_secret, label_bytes, next_traffic_secret, zero_bytes};
use crate::crypto::kx::{answers_share, KexGroup};
use crate::crypto::schedule::{
    early_secret, early_traffic_secret, handshake_secret, master_secret, resumption_hash, ticket_psk,
    ScheduleView,
};
use crate::crypto::sig::SigningKeyView;
use crate::crypto::ticket::secret::ticket_key;
use crate::extension::{find_extension, ExtensionType, ExtensionView};
use crate::handshake::reassemblers::{after_next, next_outcome, ReassemblerView};
use crate::handshake::{
    CertificateEntryView, CertificateVerifyView, CertificateView, ClientHelloView, HandshakeView, MAX_HANDSHAKE_SIZE,
    MAX_KEY_UPDATES_WITHOUT_APP_DATA,
};
use crate::identity::spki::{spki_der, KeyView};
use crate::peer::{leaf_verdict, raw_leaf, x509_leaf, LeafKeyKind};
use crate::proto::{verify_message, x509_schemes, CERT_TYPE_RAW_PUBLIC_KEY, CERT_TYPE_X509};
use crate::psk::finished_mac;
use crate::record::{suite_hash, suite_id, CipherSuite};
use crate::server::flight::{
    answers, certificate_message, certificate_request, certificate_verify, chain_fits, encodable,
    retry_request, server_hello, session_ticket, MAX_EARLY_DATA_SIZE, MAX_TRANSPORT_PARAMS_LEN,
};
use crate::server::hello::{
    chosen_suite, client_cert_type, hello_terms, no_offers, offers_read, OffersView,
};
use crate::server::resumption::{accepted_psk, is_fresh, AcceptedPskView};
use crate::ticket::{sealed_ticket, TicketKeysView, TicketView, MAX_ALPN_LEN};
use crate::{Epoch, Error, EventView, KeyDirection};

verus! {

/// How much a transcript may hold before a connection is given up: what the hash can
/// take, but for the messages of one more flight.
pub const MAX_TRANSCRIPT_LEN: u64 = 0x0fff_ffff_c000_0000;

/// How much the messages of one flight may add to a transcript.
pub const MAX_FLIGHT_LEN: u64 = 0x4000_0000;

/// What the server waits for.
#[derive(Debug, Clone, Copy, PartialEq, Eq, Structural)]
pub enum State {
    ExpectClientHello,
    ExpectEndOfEarlyData,
    ExpectClientCertificate,
    ExpectClientCertVerify,
    ExpectClientFinished,
    Done,
}

/// Whether the server authenticates the client (mutual TLS). `Requested` allows
/// an anonymous client (empty Certificate); `Required` rejects one. Either way a
/// presented identity is signature-verified and then passed to the embedder's
/// verifier for pinning.
#[derive(Clone, Copy, PartialEq, Eq, Structural)]
pub enum ClientAuth {
    Requested,
    Required,
}

/// What a server presents itself with.
#[verifier::ext_equal]
pub enum SourceView {
    RawPublicKey { key: SigningKeyView },
    X509 { chain: Seq<Seq<u8>>, key: SigningKeyView },
}

impl SourceView {
    /// The key that the server signs with.
    pub open spec fn key(self) -> SigningKeyView {
        match self {
            SourceView::RawPublicKey { key } => key,
            SourceView::X509 { key, .. } => key,
        }
    }

    /// The type of certificate that the server presents.
    pub open spec fn cert_type(self) -> u8 {
        match self {
            SourceView::RawPublicKey { .. } => CERT_TYPE_RAW_PUBLIC_KEY,
            SourceView::X509 { .. } => CERT_TYPE_X509,
        }
    }

    /// The certificates that the server presents. Only an Ed25519 key is presented
    /// bare.
    pub open spec fn presented(self) -> Result<Seq<Seq<u8>>, Error> {
        match self {
            SourceView::RawPublicKey { key } => match key {
                SigningKeyView::Ed25519 { public, .. } => Ok(
                    seq![spki_der(KeyView::Ed25519(public))->Ok_0],
                ),
                _ => Err(Error::Sig),
            },
            SourceView::X509 { chain, .. } => Ok(chain),
        }
    }

    /// Whether the server's signatures verify under what it presents: a bare key is
    /// an Ed25519 key, and a chain can be read and starts with a certificate for the
    /// key.
    pub open spec fn authenticates(self) -> bool {
        match self {
            SourceView::RawPublicKey { key } => key is Ed25519,
            SourceView::X509 { chain, key } => key.heads_chain(chain),
        }
    }
}

/// How a server is set up.
#[verifier::ext_equal]
pub struct ConfigView {
    pub source: SourceView,
    pub transport_params: Seq<u8>,
    pub alpn_protocols: Seq<Seq<u8>>,
    pub ticket_keys: Option<TicketKeysView>,
    pub accept_early_data: bool,
}

impl ConfigView {
    /// Whether the server can authenticate itself, and what it would send fits its
    /// length prefixes.
    pub open spec fn fits(self) -> bool {
        &&& self.transport_params.len() <= MAX_TRANSPORT_PARAMS_LEN
        &&& self.source.authenticates()
        &&& self.source matches SourceView::X509 { chain, .. } ==> chain_fits(chain)
    }
}

/// All that a server knows.
#[verifier::ext_equal]
pub struct ServerView {
    pub config: ConfigView,
    pub state: State,
    pub transcript: Seq<u8>,
    pub c_hs: Option<Seq<u8>>,
    pub expected_finished: Option<Seq<u8>>,
    pub c_ap: Option<Seq<u8>>,
    pub s_ap: Option<Seq<u8>>,
    pub alpn: Option<Seq<u8>>,
    pub master: Option<ScheduleView>,
    pub has_guard: bool,
    pub early_data_remaining: Option<u32>,
    pub hrr_done: bool,
    pub exporter: Option<Seq<u8>>,
    pub suite: Option<CipherSuite>,
    pub pending: ReassemblerView,
    pub client_auth: Option<ClientAuth>,
    pub client_cert_type: u8,
    pub client_leaf: Option<(LeafKeyKind, Seq<u8>)>,
    pub client_spki: Seq<u8>,
    pub client_chain: Seq<Seq<u8>>,
    pub key_updates: u32,
}

/// A server before its first message.
pub open spec fn fresh_server(config: ConfigView, has_guard: bool, client_auth: Option<ClientAuth>) -> ServerView {
    ServerView {
        config,
        state: State::ExpectClientHello,
        transcript: Seq::empty(),
        c_hs: None,
        expected_finished: None,
        c_ap: None,
        s_ap: None,
        alpn: None,
        master: None,
        has_guard,
        early_data_remaining: None,
        hrr_done: false,
        exporter: None,
        suite: None,
        pending: ReassemblerView { pending: Seq::empty(), epoch: None, key_updates: 0 },
        client_auth,
        client_cert_type: CERT_TYPE_X509,
        client_leaf: None,
        client_spki: Seq::empty(),
        client_chain: Seq::empty(),
        key_updates: 0,
    }
}

impl ServerView {
    /// The hash of the negotiated suite; SHA-256 before one is chosen.
    pub open spec fn alg(self) -> Algorithm {
        match self.suite {
            Some(s) => suite_hash(s),
            None => Algorithm::Sha256,
        }
    }

    /// The hash of the transcript.
    pub open spec fn hash(self) -> Seq<u8> {
        digest_of(self.alg(), self.transcript)
    }

    /// The server with more in its transcript.
    pub open spec fn grown(self, msg: Seq<u8>) -> ServerView {
        ServerView { transcript: self.transcript + msg, ..self }
    }
}

/// What a step gives back: what the embedder is to do, or why the connection
/// fails.
pub type Outcome = Result<Seq<EventView>, Error>;

/// A traffic secret.
pub open spec fn traffic(alg: Algorithm, secret: Seq<u8>, label: Seq<u8>, hash: Seq<u8>) -> Seq<u8> {
    derived_secret(alg, secret, label, hash)->Ok_0
}

/// What the embedder may say: what its clock may tell, and whether its verifier may
/// let in a client that presented a type of certificate, a public key and a chain.
pub struct Embedder {
    pub tells: spec_fn(u64) -> bool,
    pub allows: spec_fn(u8, Seq<u8>, Seq<Seq<u8>>, bool) -> bool,
}

/// What comes from outside while a ClientHello is answered: the time when its
/// ticket is looked at and when its early data is, whether the embedder had not
/// seen its binder before, the server's share and the shared secret, the server's
/// random and its signature.
pub struct HelloInputs {
    pub now: u64,
    pub early_now: u64,
    pub registered: bool,
    pub exchange: Option<(Seq<u8>, Seq<u8>)>,
    pub random: Option<Seq<u8>>,
    pub signature: Option<Seq<u8>>,
}

/// The server asks for a share in `group`: the transcript starts over with the
/// hash of the message, and the request follows.
pub open spec fn retry_step(v: ServerView, raw: Seq<u8>, session_id: Seq<u8>, group: KexGroup) -> (
    ServerView,
    Outcome,
) {
    let request = retry_request(session_id, v.suite->0, group).bytes();
    (
        ServerView {
            transcript: message_hash(digest_of(v.alg(), raw)) + request,
            hrr_done: true,
            ..v
        },
        Ok(seq![EventView::Send { epoch: Epoch::Plaintext, data: request }]),
    )
}

/// The ticket that the server accepts from a ClientHello.
pub open spec fn offered_psk(v: ServerView, exts: Seq<ExtensionView>, raw: Seq<u8>, now: u64) -> Option<
    AcceptedPskView,
> {
    match v.config.ticket_keys {
        Some(keys) if v.alg() == resumption_hash() => accepted_psk(
            keys,
            now,
            if v.hrr_done {
                v.transcript
            } else {
                Seq::empty()
            },
            exts,
            raw,
        ),
        _ => None,
    }
}

/// Whether a server looks at tickets: it has keys for them, and resumes only under
/// SHA-256.
pub open spec fn resumes(v: ServerView) -> bool {
    v.config.ticket_keys is Some && v.alg() == resumption_hash()
}

/// Whether it comes to the question if a ticket is fresh enough for early data: the
/// server takes early data, the client sends some under a ticket, and protocol and
/// suite are those of the session that the ticket is from.
pub open spec fn early_asked(v: ServerView, exts: Seq<ExtensionView>, psk: Option<AcceptedPskView>) -> bool {
    &&& v.config.accept_early_data
    &&& find_extension(exts, ExtensionType::EARLY_DATA) is Some
    &&& psk is Some
    &&& psk->0.ticket.alpn == match v.alpn {
        Some(p) => p,
        None => Seq::empty(),
    }
    &&& v.suite is Some && suite_id(v.suite->0) == psk->0.ticket.suite
}

/// Whether early data may be taken, if its binder is new: the server takes early
/// data and can tell replays, the client sends some under a fresh ticket, and
/// protocol and suite are those of the session that the ticket is from.
pub open spec fn early_eligible(
    v: ServerView,
    exts: Seq<ExtensionView>,
    psk: Option<AcceptedPskView>,
    now: u64,
) -> bool {
    &&& early_asked(v, exts, psk)
    &&& v.has_guard
    &&& is_fresh(psk->0, now)
}

/// What the server's flight rests on: the client's session id, group and offers,
/// the ticket that was accepted, and whether its early data is.
#[verifier::ext_equal]
pub struct FlightTerms {
    pub session_id: Seq<u8>,
    pub group: KexGroup,
    pub offers: OffersView,
    pub psk: Option<AcceptedPskView>,
    pub early: bool,
}

/// Whether the server asks the client for a certificate: never when a session is
/// resumed.
pub open spec fn asks_client(v: ServerView, t: FlightTerms) -> bool {
    t.psk is None && v.client_auth is Some
}

/// The secret of the handshake stage.
pub open spec fn stage_secret(alg: Algorithm, psk: Option<AcceptedPskView>, dhe: Seq<u8>) -> Seq<u8> {
    let early = match psk {
        Some(p) => early_secret(alg, p.ticket.psk),
        None => early_secret(alg, zero_bytes(hash_len(alg))),
    };
    handshake_secret(alg, early, dhe)
}

/// The server's flight up to its signature: the handshake stage's secret, the
/// traffic secrets, what is sent under them, and the events so far.
#[verifier::ext_equal]
pub struct OpeningView {
    pub secret: Seq<u8>,
    pub c_hs: Seq<u8>,
    pub s_hs: Seq<u8>,
    pub blob: Seq<u8>,
    pub events: Seq<EventView>,
}

/// ServerHello, EncryptedExtensions and, where no session is resumed, what the
/// server presents.
pub open spec fn opening(
    v: ServerView,
    t: FlightTerms,
    share: Seq<u8>,
    dhe: Seq<u8>,
    random: Seq<u8>,
) -> (ServerView, Result<OpeningView, Error>) {
    let alg = v.alg();
    let hello = server_hello(random, t.session_id, v.suite->0, t.group, share, t.psk is Some).bytes();
    let v1 = v.grown(hello);
    let secret = stage_secret(alg, t.psk, dhe);
    let c_hs = traffic(alg, secret, label_bytes("c hs traffic"), v1.hash());
    let s_hs = traffic(alg, secret, label_bytes("s hs traffic"), v1.hash());
    let events = seq![
        EventView::Send { epoch: Epoch::Plaintext, data: hello },
        EventView::KeysReady { epoch: Epoch::Handshake, read_secret: c_hs, write_secret: s_hs },
    ];
    let server_type = v.config.source.cert_type();
    if t.offers.server_types is Some && !t.offers.server_types->0.contains(server_type) {
        (v1, Err(Error::UnexpectedMessage))
    } else {
        let client_type = client_cert_type(t.offers.client_types);
        let v2 = ServerView { client_cert_type: client_type, ..v1 };
        if !encodable(server_type, client_type, t.offers, v.config.transport_params, t.early) {
            (v2, Err(Error::Encode))
        } else {
            let extensions = HandshakeView::EncryptedExtensions(
                answers(server_type, client_type, t.offers, v.config.transport_params, t.early),
            ).bytes();
            let request = if asks_client(v, t) {
                certificate_request().bytes()
            } else {
                Seq::empty()
            };
            let v3 = v2.grown(extensions).grown(request);
            let o = OpeningView { secret, c_hs, s_hs, blob: extensions + request, events };
            if t.psk is Some {
                (v3, Ok(o))
            } else {
                match v.config.source.presented() {
                    Err(e) => (v3, Err(e)),
                    Ok(chain) => {
                        let certificate = certificate_message(chain).bytes();
                        (
                            v3.grown(certificate),
                            Ok(OpeningView { blob: o.blob + certificate, ..o }),
                        )
                    },
                }
            }
        }
    }
}

/// What the server signs after its opening.
pub open spec fn to_sign(v: ServerView) -> Seq<u8> {
    verify_message(v.hash(), true)
}

/// The server's proof of possession, where no session is resumed, and its Finished;
/// with it the application's secrets are known.
pub open spec fn closing(v: ServerView, t: FlightTerms, o: OpeningView, sig: Option<Seq<u8>>) -> (
    ServerView,
    Outcome,
) {
    let alg = v.alg();
    if t.psk is None && sig is None {
        (v, Err(Error::Sig))
    } else {
        let proof_bytes = if t.psk is None {
            certificate_verify(v.config.source.key().scheme(), sig->0).bytes()
        } else {
            Seq::empty()
        };
        let v1 = v.grown(proof_bytes);
        let finished = HandshakeView::Finished(finished_mac(alg, o.s_hs, v1.hash())).bytes();
        let v2 = v1.grown(finished);
        let hash = v2.hash();
        let secret = master_secret(alg, o.secret);
        let c_ap = traffic(alg, secret, label_bytes("c ap traffic"), hash);
        let s_ap = traffic(alg, secret, label_bytes("s ap traffic"), hash);
        let v3 = ServerView {
            c_ap: Some(c_ap),
            s_ap: Some(s_ap),
            exporter: Some(traffic(alg, secret, label_bytes("exp master"), hash)),
            master: Some(ScheduleView { alg, secret }),
            c_hs: Some(o.c_hs),
            ..v2
        };
        (
            if t.early {
                ServerView {
                    early_data_remaining: Some(MAX_EARLY_DATA_SIZE),
                    state: State::ExpectEndOfEarlyData,
                    ..v3
                }
            } else if asks_client(v, t) {
                ServerView { state: State::ExpectClientCertificate, ..v3 }
            } else {
                ServerView {
                    expected_finished: Some(finished_mac(alg, o.c_hs, hash)),
                    state: State::ExpectClientFinished,
                    ..v3
                }
            },
            Ok(
                o.events + seq![
                    EventView::Send {
                        epoch: Epoch::Handshake,
                        data: o.blob + proof_bytes + finished,
                    },
                    EventView::KeysReady {
                        epoch: Epoch::Application,
                        read_secret: c_ap,
                        write_secret: s_ap,
                    },
                ],
            ),
        )
    }
}

/// The keys of early data, where it is taken.
pub open spec fn early_events(v: ServerView, t: FlightTerms) -> Seq<EventView> {
    if t.early {
        seq![
            EventView::ZeroRttKeysReady {
                secret: early_traffic_secret(
                    t.psk->0.ticket.psk,
                    digest_of(resumption_hash(), v.transcript),
                )->Ok_0,
            },
        ]
    } else {
        Seq::empty()
    }
}

/// The server's whole flight.
pub open spec fn flight(v: ServerView, t: FlightTerms, x: HelloInputs) -> (ServerView, Outcome) {
    if x.exchange is None {
        (v, Err(Error::Kx))
    } else if x.random is None {
        (v, Err(Error::Rng))
    } else {
        let (v1, opened) = opening(v, t, (x.exchange->0).0, (x.exchange->0).1, x.random->0);
        match opened {
            Err(e) => (v1, Err(e)),
            Ok(o) => {
                let (v2, out) = closing(v1, t, o, x.signature);
                match out {
                    Err(e) => (v2, Err(e)),
                    Ok(events) => (v2, Ok(t.offers.events + early_events(v, t) + events)),
                }
            },
        }
    }
}

/// What the server makes of a ClientHello's offers: what it knows then, and what
/// its flight rests on.
pub open spec fn settled(
    v: ServerView,
    ch: ClientHelloView,
    raw: Seq<u8>,
    group: KexGroup,
    x: HelloInputs,
) -> (ServerView, Result<FlightTerms, Error>) {
    let (offers, refused) = offers_read(v.config.alpn_protocols, no_offers(v.alpn), ch.extensions);
    let v1 = ServerView { alpn: offers.alpn, ..v };
    match refused {
        Some(e) => (v1, Err(e)),
        None => {
            let psk = offered_psk(v1, ch.extensions, raw, x.now);
            let early = early_eligible(v1, ch.extensions, psk, x.early_now) && x.registered;
            (
                v1.grown(raw),
                Ok(FlightTerms { session_id: ch.legacy_session_id, group, offers, psk, early }),
            )
        },
    }
}

/// A ClientHello is answered with the server's flight, or with a request for
/// another one.
pub open spec fn hello_step(v: ServerView, ch: ClientHelloView, raw: Seq<u8>, x: HelloInputs) -> (
    ServerView,
    Outcome,
) {
    match chosen_suite(ch.cipher_suites) {
        None => (v, Err(Error::UnsupportedCipherSuite)),
        Some(suite) => {
            let v1 = ServerView { suite: Some(suite), ..v };
            match hello_terms(ch, v.config.source.key().scheme()) {
                Err(e) => (v1, Err(e)),
                Ok((group, None)) => if v.hrr_done {
                    (v1, Err(Error::MissingExtension))
                } else {
                    retry_step(v1, raw, ch.legacy_session_id, group)
                },
                Ok((_, Some((group, _)))) => {
                    let (v2, terms) = settled(v1, ch, raw, group, x);
                    match terms {
                        Err(e) => (v2, Err(e)),
                        Ok(t) => flight(v2, t, x),
                    }
                },
            }
        },
    }
}

/// Whether a signature is the server's over what it is to sign, where it signs.
pub open spec fn signs_opening(v: ServerView, t: FlightTerms, x: HelloInputs) -> bool {
    let (v1, opened) = opening(v, t, (x.exchange->0).0, (x.exchange->0).1, x.random->0);
    opened is Ok && t.psk is None && x.signature is Some ==> v.config.source.key().signs(
        to_sign(v1),
        x.signature->0,
    )
}

/// What is known of what the embedder said while a ClientHello's offers were settled:
/// the times are its clock's. `v` and `terms` are what was settled.
pub open spec fn settle_inputs(
    e: Embedder,
    v: ServerView,
    exts: Seq<ExtensionView>,
    terms: Result<FlightTerms, Error>,
    x: HelloInputs,
) -> bool {
    terms is Ok ==> {
        let psk = terms->Ok_0.psk;
        &&& resumes(v) ==> (e.tells)(x.now)
        &&& early_asked(v, exts, psk) ==> (e.tells)(x.early_now)
    }
}

/// What a guard was asked and answered: a token, and whether it is new.
pub struct Asked {
    pub token: Seq<u8>,
    pub fresh: bool,
}

/// The token that the guard is asked about while a ClientHello's offers are settled,
/// where it is asked, and its answer: whether the token is new. `v` and `terms` are
/// what was settled.
pub open spec fn settle_asks(
    v: ServerView,
    exts: Seq<ExtensionView>,
    terms: Result<FlightTerms, Error>,
    x: HelloInputs,
) -> Option<Asked> {
    if terms is Ok && early_eligible(v, exts, terms->Ok_0.psk, x.early_now) {
        Some(Asked { token: terms->Ok_0.psk->0.binder, fresh: x.registered })
    } else {
        None
    }
}

/// The token that the guard is asked about on a ClientHello, where it is asked, and
/// its answer.
pub open spec fn hello_asks(v: ServerView, ch: ClientHelloView, raw: Seq<u8>, x: HelloInputs) -> Option<Asked> {
    match (hello_terms(ch, v.config.source.key().scheme()), chosen_suite(ch.cipher_suites)) {
        (Ok((_, Some((group, _)))), Some(suite)) => {
            let (v1, terms) = settled(ServerView { suite: Some(suite), ..v }, ch, raw, group, x);
            settle_asks(v1, ch.extensions, terms, x)
        },
        _ => None,
    }
}

/// What is known of what comes from outside: times and verdicts are the embedder's, a
/// random has its length, a share and a secret are an answer to the client's share,
/// and a signature is the server's over what it was to sign.
#[verifier::opaque]
pub open spec fn hello_inputs(e: Embedder, v: ServerView, ch: ClientHelloView, raw: Seq<u8>, x: HelloInputs) -> bool {
    &&& x.random matches Some(r) ==> r.len() == 32
    &&& match (hello_terms(ch, v.config.source.key().scheme()), chosen_suite(ch.cipher_suites)) {
        (Ok((_, Some((group, client_share)))), Some(suite)) => {
            let (v1, terms) = settled(ServerView { suite: Some(suite), ..v }, ch, raw, group, x);
            &&& settle_inputs(e, v1, ch.extensions, terms, x)
            &&& x.exchange is Some ==> answers_share(
                group,
                client_share,
                (x.exchange->0).0,
                (x.exchange->0).1,
            )
            &&& terms is Ok && x.exchange is Some && x.random is Some ==> signs_opening(
                v1,
                terms->Ok_0,
                x,
            )
        },
        _ => true,
    }
}

/// The server with the Finished message that it then waits for.
pub open spec fn awaiting_finished(v: ServerView) -> (ServerView, Outcome) {
    match v.c_hs {
        None => (v, Err(Error::UnexpectedMessage)),
        Some(c_hs) => (
            ServerView {
                expected_finished: Some(finished_mac(v.alg(), c_hs, v.hash())),
                state: State::ExpectClientFinished,
                ..v
            },
            Ok(Seq::empty()),
        ),
    }
}

/// The client's early data ends.
pub open spec fn end_of_early_data_step(v: ServerView, raw: Seq<u8>) -> (ServerView, Outcome) {
    if v.c_hs is None {
        (v, Err(Error::UnexpectedMessage))
    } else {
        awaiting_finished((ServerView { early_data_remaining: None, ..v }).grown(raw))
    }
}

/// The client presents itself, or does not. What it presents is kept until its
/// proof of possession.
pub open spec fn certificate_step(v: ServerView, m: CertificateView, raw: Seq<u8>) -> (ServerView, Outcome) {
    let list = m.certificate_list;
    if m.certificate_request_context.len() > 0 {
        (v, Err(Error::IllegalParameter))
    } else if list.len() == 0 {
        if v.client_auth == Some(ClientAuth::Required) {
            (v, Err(Error::ClientCertRequired))
        } else {
            awaiting_finished(v.grown(raw))
        }
    } else if v.client_cert_type == CERT_TYPE_RAW_PUBLIC_KEY {
        if list.len() != 1 {
            (v, Err(Error::BadCertificate))
        } else {
            match raw_leaf(list[0].cert_data) {
                Err(e) => (v, Err(e)),
                Ok(key) => (
                    ServerView {
                        client_leaf: Some(key),
                        client_spki: list[0].cert_data,
                        client_chain: Seq::empty(),
                        state: State::ExpectClientCertVerify,
                        ..v.grown(raw)
                    },
                    Ok(Seq::empty()),
                ),
            }
        }
    } else {
        match x509_leaf(list[0].cert_data) {
            Err(e) => (v, Err(e)),
            Ok((kind, key, spki)) => (
                ServerView {
                    client_leaf: Some((kind, key)),
                    client_spki: spki,
                    client_chain: list.map_values(|e: CertificateEntryView| e.cert_data),
                    state: State::ExpectClientCertVerify,
                    ..v.grown(raw)
                },
                Ok(Seq::empty()),
            ),
        }
    }
}

/// Whether the client proves possession of the key that it presented, to a server
/// that asks for such proof.
pub open spec fn possession_verdict(v: ServerView, m: CertificateVerifyView) -> Result<(), Error> {
    if !x509_schemes().contains(m.algorithm) {
        Err(Error::SigSchemeNotOffered)
    } else {
        match v.client_leaf {
            None => Err(Error::BadCertificateVerify),
            Some((kind, key)) => match leaf_verdict(
                kind,
                key,
                m.algorithm,
                verify_message(v.hash(), false),
                m.signature,
            ) {
                Err(e) => Err(e),
                Ok(()) => if v.client_auth is None {
                    Err(Error::UnexpectedMessage)
                } else {
                    Ok(())
                },
            },
        }
    }
}

/// The client proves possession of the key that it presented; then the embedder
/// decides whether it is `allowed`.
pub open spec fn certificate_verify_step(
    v: ServerView,
    m: CertificateVerifyView,
    raw: Seq<u8>,
    allowed: bool,
) -> (ServerView, Outcome) {
    match possession_verdict(v, m) {
        Err(e) => (v, Err(e)),
        Ok(()) => if !allowed {
            (v, Err(Error::AccessDenied))
        } else {
            awaiting_finished(v.grown(raw))
        },
    }
}

/// What comes from outside while a ticket is issued: the time, the ticket's nonce,
/// what its age is obscured with, and the nonce it is sealed under.
pub struct TicketInputs {
    pub now: u64,
    pub nonce: Option<Seq<u8>>,
    pub age_add: Option<u32>,
    pub seal_nonce: Option<Seq<u8>>,
}

/// What is known of what comes from outside while a server issues a ticket, if it
/// does.
pub open spec fn ticket_inputs(e: Embedder, v: ServerView, x: TicketInputs) -> bool {
    &&& v.master is Some && v.config.ticket_keys is Some ==> (e.tells)(x.now)
    &&& x.nonce matches Some(n) ==> n.len() == 8
    &&& x.seal_nonce matches Some(n) ==> n.len() == 12
}

/// The key of a ticket with nonce `nonce` for a session.
#[verifier::opaque]
pub open spec fn session_psk(v: ServerView, master: Seq<u8>, nonce: Seq<u8>) -> Seq<u8> {
    let resumption = traffic(
        resumption_hash(),
        master,
        label_bytes("res master"),
        digest_of(resumption_hash(), v.transcript),
    );
    ticket_psk(resumption, nonce)->Ok_0
}

/// A ticket that the server issues, where it issues any: only under SHA-256.
pub open spec fn ticket_step(v: ServerView, x: TicketInputs) -> Outcome {
    if v.master is None || v.config.ticket_keys is None || v.master->0.alg != resumption_hash() {
        Ok(Seq::empty())
    } else if x.nonce is None || x.age_add is None {
        Err(Error::Rng)
    } else if v.suite is None {
        Err(Error::UnexpectedMessage)
    } else {
        let alpn = match v.alpn {
            Some(p) => p,
            None => Seq::empty(),
        };
        if alpn.len() > MAX_ALPN_LEN || x.seal_nonce is None {
            Err(Error::Rng)
        } else {
            let psk = session_psk(v, v.master->0.secret, x.nonce->0);
            let ticket = sealed_ticket(
                ticket_key(v.config.ticket_keys->0.current),
                x.seal_nonce->0,
                TicketView {
                    psk,
                    age_add: x.age_add->0,
                    issued_at_ms: x.now,
                    suite: suite_id(v.suite->0),
                    alpn,
                },
            );
            let message = session_ticket(
                x.age_add->0,
                x.nonce->0,
                ticket,
                v.config.accept_early_data,
            ).bytes();
            Ok(
                seq![
                    EventView::Send { epoch: Epoch::Application, data: message },
                    EventView::ResumptionSecret { psk },
                ],
            )
        }
    }
}

/// The client's Finished ends the handshake; a ticket may follow.
pub open spec fn finished_step(v: ServerView, verify_data: Seq<u8>, raw: Seq<u8>, x: TicketInputs) -> (
    ServerView,
    Outcome,
) {
    if v.expected_finished is None {
        (v, Err(Error::UnexpectedMessage))
    } else if verify_data != v.expected_finished->0 {
        (v, Err(Error::BadFinished))
    } else {
        let v1 = ServerView { state: State::Done, ..v.grown(raw) };
        match ticket_step(v1, x) {
            Err(e) => (v1, Err(e)),
            Ok(events) => (v1, Ok(seq![EventView::Done] + events)),
        }
    }
}

/// One more KeyUpdate without application data in between.
pub open spec fn counted(v: ServerView) -> ServerView {
    ServerView {
        key_updates: if v.key_updates == u32::MAX {
            u32::MAX
        } else {
            (v.key_updates + 1) as u32
        },
        ..v
    }
}

/// The client changes its keys; where it asks for that, so does the server.
pub open spec fn key_update_step(v: ServerView, request_update: u8) -> (ServerView, Outcome) {
    let v1 = counted(v);
    if v1.key_updates > MAX_KEY_UPDATES_WITHOUT_APP_DATA || v.c_ap is None {
        (v1, Err(Error::UnexpectedMessage))
    } else {
        let read = next_traffic_secret(v.alg(), v.c_ap->0);
        let v2 = ServerView { c_ap: Some(read), ..v1 };
        let read_event = EventView::KeyUpdate { direction: KeyDirection::Read, secret: read };
        if request_update != 1 {
            (v2, Ok(seq![read_event]))
        } else if v.s_ap is None {
            (v2, Err(Error::UnexpectedMessage))
        } else {
            let write = next_traffic_secret(v.alg(), v.s_ap->0);
            (
                ServerView { s_ap: Some(write), ..v2 },
                Ok(
                    seq![
                        read_event,
                        EventView::Send {
                            epoch: Epoch::Application,
                            data: HandshakeView::KeyUpdate(0).bytes(),
                        },
                        EventView::KeyUpdate { direction: KeyDirection::Write, secret: write },
                    ],
                ),
            )
        }
    }
}

/// The server changes its keys of its own accord.
pub open spec fn send_key_update_step(v: ServerView, request_update: bool) -> (ServerView, Outcome) {
    if v.state != State::Done || v.s_ap is None {
        (v, Err(Error::UnexpectedMessage))
    } else {
        let write = next_traffic_secret(v.alg(), v.s_ap->0);
        (
            ServerView { s_ap: Some(write), ..v },
            Ok(
                seq![
                    EventView::Send {
                        epoch: Epoch::Application,
                        data: HandshakeView::KeyUpdate(
                            if request_update {
                                1
                            } else {
                                0
                            },
                        ).bytes(),
                    },
                    EventView::KeyUpdate { direction: KeyDirection::Write, secret: write },
                ],
            ),
        )
    }
}

/// What is left of an allowance of early data after `len` more bytes; `None` where
/// they are too many, or there is no allowance.
pub open spec fn charged(left: Option<u32>, len: nat) -> Option<u32> {
    match left {
        Some(n) if len <= n => Some((n - len) as u32),
        _ => None,
    }
}

/// What comes from outside while one message is processed.
pub struct Inputs {
    pub hello: HelloInputs,
    pub allowed: bool,
    pub ticket: TicketInputs,
}

/// What the server does with one message. A message that it does not wait for, or
/// that came under other keys than it has to, is refused.
#[verifier::opaque]
pub open spec fn process_step(v: ServerView, epoch: Epoch, m: HandshakeView, raw: Seq<u8>, x: Inputs) -> (
    ServerView,
    Outcome,
) {
    if v.transcript.len() > MAX_TRANSCRIPT_LEN {
        (v, Err(Error::Decode))
    } else {
        match (v.state, m) {
            (State::ExpectClientHello, HandshakeView::ClientHello(ch)) if epoch == Epoch::Plaintext =>
                hello_step(v, ch, raw, x.hello),
            (State::ExpectEndOfEarlyData, HandshakeView::EndOfEarlyData) if epoch == Epoch::EarlyData =>
                end_of_early_data_step(v, raw),
            (State::ExpectClientCertificate, HandshakeView::Certificate(c)) if epoch
                == Epoch::Handshake => certificate_step(v, c, raw),
            (State::ExpectClientCertVerify, HandshakeView::CertificateVerify(c)) if epoch
                == Epoch::Handshake => certificate_verify_step(v, c, raw, x.allowed),
            (State::ExpectClientFinished, HandshakeView::Finished(f)) if epoch == Epoch::Handshake =>
                finished_step(v, f, raw, x.ticket),
            (State::Done, HandshakeView::KeyUpdate(request)) if epoch == Epoch::Application =>
                key_update_step(v, request),
            _ => (v, Err(Error::UnexpectedMessage)),
        }
    }
}

/// What is known of the embedder's verdict on a client: it is the verifier's, of what
/// the client presented, where the client proved possession of its key.
pub open spec fn verdict_inputs(e: Embedder, v: ServerView, m: CertificateVerifyView, allowed: bool) -> bool {
    possession_verdict(v, m) is Ok ==> (e.allows)(
        v.client_cert_type,
        v.client_spki,
        v.client_chain,
        allowed,
    )
}

/// What is known of what comes from outside while one message is processed.
pub open spec fn inputs(e: Embedder, v: ServerView, epoch: Epoch, m: HandshakeView, raw: Seq<u8>, x: Inputs) -> bool {
    v.transcript.len() <= MAX_TRANSCRIPT_LEN ==> match (v.state, m) {
        (State::ExpectClientHello, HandshakeView::ClientHello(ch)) if epoch == Epoch::Plaintext =>
            hello_inputs(e, v, ch, raw, x.hello),
        (State::ExpectClientCertVerify, HandshakeView::CertificateVerify(c)) if epoch
            == Epoch::Handshake => verdict_inputs(e, v, c, x.allowed),
        (State::ExpectClientFinished, HandshakeView::Finished(f)) if epoch == Epoch::Handshake =>
            v.expected_finished == Some(f) ==> ticket_inputs(e, v, x.ticket),
        _ => true,
    }
}

/// The token that the guard is asked about on a message, where it is asked, and its
/// answer.
#[verifier::opaque]
pub open spec fn process_asks(v: ServerView, epoch: Epoch, m: HandshakeView, raw: Seq<u8>, x: Inputs) -> Option<Asked> {
    match m {
        HandshakeView::ClientHello(ch) if v.transcript.len() <= MAX_TRANSCRIPT_LEN && v.state
            == State::ExpectClientHello && epoch == Epoch::Plaintext => hello_asks(v, ch, raw, x.hello),
        _ => None,
    }
}

/// The server after the next message was taken out of what it has read.
pub open spec fn taken(v: ServerView) -> ServerView {
    ServerView { pending: after_next(v.pending), ..v }
}

/// Events that come before others.
pub open spec fn preceded(events: Seq<EventView>, rest: (ServerView, Outcome)) -> (ServerView, Outcome) {
    (
        rest.0,
        match rest.1 {
            Ok(l) => Ok(events + l),
            Err(e) => Err(e),
        },
    )
}

/// What the server does with the messages that it has read, one after another.
pub open spec fn drain_step(v: ServerView, epoch: Epoch, xs: Seq<Inputs>) -> (ServerView, Outcome)
    decreases xs.len(),
{
    match next_outcome(v.pending) {
        Err(e) => (taken(v), Err(e)),
        Ok(None) => (taken(v), Ok(Seq::empty())),
        Ok(Some((m, raw))) => if xs.len() == 0 {
            (v, Ok(Seq::empty()))
        } else {
            let (v1, out) = process_step(taken(v), epoch, m, raw, xs[0]);
            match out {
                Err(e) => (v1, Err(e)),
                Ok(events) => preceded(events, drain_step(v1, epoch, xs.skip(1))),
            }
        },
    }
}

/// What is known of what comes from outside while messages are processed: there is
/// enough of it, and it is fit for each.
pub open spec fn all_inputs(e: Embedder, v: ServerView, epoch: Epoch, xs: Seq<Inputs>) -> bool
    decreases xs.len(),
{
    match next_outcome(v.pending) {
        Ok(Some((m, raw))) => {
            &&& xs.len() > 0
            &&& inputs(e, taken(v), epoch, m, raw, xs[0])
            &&& {
                let (v1, out) = process_step(taken(v), epoch, m, raw, xs[0]);
                out is Ok ==> all_inputs(e, v1, epoch, xs.skip(1))
            }
        },
        _ => true,
    }
}

/// The token that the guard is asked about while messages are processed, where it is
/// asked, and its answer. It is asked once at most.
pub open spec fn drain_asks(v: ServerView, epoch: Epoch, xs: Seq<Inputs>) -> Option<Asked>
    decreases xs.len(),
{
    match next_outcome(v.pending) {
        Ok(Some((m, raw))) if xs.len() > 0 => match process_asks(taken(v), epoch, m, raw, xs[0]) {
            Some(a) => Some(a),
            None => {
                let (v1, out) = process_step(taken(v), epoch, m, raw, xs[0]);
                if out is Ok {
                    drain_asks(v1, epoch, xs.skip(1))
                } else {
                    None
                }
            },
        },
        _ => None,
    }
}

/// The token that the guard is asked about while a record is read, where it is asked,
/// and its answer.
pub open spec fn read_asks(v: ServerView, epoch: Epoch, data: Seq<u8>, xs: Seq<Inputs>) -> Option<Asked> {
    if spans_epochs(v, epoch) {
        None
    } else {
        drain_asks(received(v, epoch, data), epoch, xs)
    }
}

/// What is known of what comes from outside while a record is read.
pub open spec fn read_inputs(e: Embedder, v: ServerView, epoch: Epoch, data: Seq<u8>, xs: Seq<Inputs>) -> bool {
    spans_epochs(v, epoch) || all_inputs(e, received(v, epoch, data), epoch, xs)
}

/// Whether a message that was begun under other keys is not complete yet.
pub open spec fn spans_epochs(v: ServerView, epoch: Epoch) -> bool {
    v.pending.pending.len() > 0 && v.pending.epoch != Some(epoch)
}

/// The server with a record's bytes behind those that it has read before.
pub open spec fn received(v: ServerView, epoch: Epoch, data: Seq<u8>) -> ServerView {
    ServerView {
        pending: ReassemblerView {
            pending: v.pending.pending + data,
            epoch: Some(epoch),
            key_updates: 0,
        },
        ..v
    }
}

/// What the server does with a record's bytes. A message that was begun under other
/// keys cannot go on.
pub open spec fn read_step(v: ServerView, epoch: Epoch, data: Seq<u8>, xs: Seq<Inputs>) -> (
    ServerView,
    Outcome,
) {
    if spans_epochs(v, epoch) {
        (v, Err(Error::Decode))
    } else {
        drain_step(received(v, epoch, data), epoch, xs)
    }
}

/// A step leaves alone what was read but not yet processed.
pub proof fn lemma_hello_keeps_pending(v: ServerView, ch: ClientHelloView, raw: Seq<u8>, x: HelloInputs)
    ensures
        hello_step(v, ch, raw, x).0.pending == v.pending,
        hello_step(v, ch, raw, x).0.config == v.config,
        hello_step(v, ch, raw, x).0.client_auth == v.client_auth,
{
    match chosen_suite(ch.cipher_suites) {
        None => {},
        Some(suite) => {
            let v1 = ServerView { suite: Some(suite), ..v };
            match hello_terms(ch, v.config.source.key().scheme()) {
                Ok((_, Some((group, _)))) => {
                    let (v2, terms) = settled(v1, ch, raw, group, x);
                    assert(v2.pending == v.pending && v2.config == v.config && v2.client_auth
                        == v.client_auth);
                    if terms is Ok {
                        lemma_flight_keeps(v2, terms->Ok_0, x);
                    }
                },
                _ => {},
            }
        },
    }
}

proof fn lemma_flight_keeps(v: ServerView, t: FlightTerms, x: HelloInputs)
    ensures
        flight(v, t, x).0.pending == v.pending,
        flight(v, t, x).0.config == v.config,
        flight(v, t, x).0.client_auth == v.client_auth,
{
    if x.exchange is Some && x.random is Some {
        let (v1, opened) = opening(v, t, (x.exchange->0).0, (x.exchange->0).1, x.random->0);
        assert(v1.pending == v.pending && v1.config == v.config && v1.client_auth == v.client_auth);
        if opened is Ok {
            let (v2, out) = closing(v1, t, opened->Ok_0, x.signature);
            assert(v2.pending == v.pending && v2.config == v.config && v2.client_auth == v.client_auth);
        }
    }
}

/// A message changes neither what was read behind it nor how the server is set up.
pub proof fn law_process_keeps_setup(v: ServerView, epoch: Epoch, m: HandshakeView, raw: Seq<u8>, x: Inputs)
    ensures
        process_step(v, epoch, m, raw, x).0.pending == v.pending,
        process_step(v, epoch, m, raw, x).0.config == v.config,
        process_step(v, epoch, m, raw, x).0.client_auth == v.client_auth,
{
    reveal(process_step);
    if let HandshakeView::ClientHello(ch) = m {
        lemma_hello_keeps_pending(v, ch, raw, x.hello);
    }
}

/// Once its ClientHello is answered, a server waits for none again.
pub proof fn law_hello_is_answered_once(v: ServerView, epoch: Epoch, m: HandshakeView, raw: Seq<u8>, x: Inputs)
    ensures
        v.state != State::ExpectClientHello ==> process_step(v, epoch, m, raw, x).0.state
            != State::ExpectClientHello,
        process_asks(v, epoch, m, raw, x) is Some && process_step(v, epoch, m, raw, x).1 is Ok
            ==> process_step(v, epoch, m, raw, x).0.state != State::ExpectClientHello,
{
    reveal(process_step);
    reveal(process_asks);
}

/// The guard of a server that waits for no ClientHello is not asked.
pub proof fn law_guard_is_asked_once(v: ServerView, epoch: Epoch, xs: Seq<Inputs>)
    requires
        v.state != State::ExpectClientHello,
    ensures
        drain_asks(v, epoch, xs) is None,
    decreases xs.len(),
{
    reveal(process_asks);
    if xs.len() > 0 {
        if let Ok(Some((m, raw))) = next_outcome(v.pending) {
            let (v1, out) = process_step(taken(v), epoch, m, raw, xs[0]);
            law_hello_is_answered_once(taken(v), epoch, m, raw, xs[0]);
            law_guard_is_asked_once(v1, epoch, xs.skip(1));
        }
    }
}

/// A message that was taken out was complete, and leaves less behind.
pub proof fn lemma_taken(v: ServerView)
    ensures
        next_outcome(v.pending) matches Ok(Some((_, raw))) ==> {
            &&& raw.len() <= MAX_HANDSHAKE_SIZE
            &&& taken(v).pending.pending.len() < v.pending.pending.len()
        },
{
}

/// One message, and the ones behind it.
pub proof fn lemma_drain_one(e: Embedder, v: ServerView, epoch: Epoch, x: Inputs, rest: Seq<Inputs>)
    requires
        next_outcome(v.pending) matches Ok(Some(_)),
    ensures
        ({
            let (m, raw) = next_outcome(v.pending)->Ok_0->0;
            let (v1, out) = process_step(taken(v), epoch, m, raw, x);
            &&& drain_step(v, epoch, seq![x] + rest) == match out {
                Err(e) => (v1, Err(e)),
                Ok(events) => preceded(events, drain_step(v1, epoch, rest)),
            }
            &&& all_inputs(e, v, epoch, seq![x] + rest) == (inputs(e, taken(v), epoch, m, raw, x) && (
            out is Ok ==> all_inputs(e, v1, epoch, rest)))
            &&& drain_asks(v, epoch, seq![x] + rest) == match process_asks(taken(v), epoch, m, raw, x) {
                Some(a) => Some(a),
                None => if out is Ok {
                    drain_asks(v1, epoch, rest)
                } else {
                    None
                },
            }
        }),
{
    let xs = seq![x] + rest;
    assert(xs[0] == x);
    assert(xs.skip(1) =~= rest);
}

/// Whether a server that began as `start` is `v`, has `events` to give out, and has
/// `xs` from outside behind it, whatever comes next.
pub open spec fn got_to(
    e: Embedder,
    start: ServerView,
    epoch: Epoch,
    xs: Seq<Inputs>,
    events: Seq<EventView>,
    v: ServerView,
) -> bool {
    &&& forall|rest: Seq<Inputs>| #![trigger xs + rest] {
        &&& drain_step(start, epoch, xs + rest) == preceded(events, drain_step(v, epoch, rest))
        &&& all_inputs(e, start, epoch, xs + rest) == all_inputs(e, v, epoch, rest)
        &&& drain_asks(start, epoch, xs + rest) == match drain_asks(start, epoch, xs) {
            Some(a) => Some(a),
            None => drain_asks(v, epoch, rest),
        }
    }
    &&& drain_asks(start, epoch, xs) is Some ==> v.state != State::ExpectClientHello
}

/// A server begins with nothing behind it.
pub proof fn lemma_got_nowhere(e: Embedder, v: ServerView, epoch: Epoch)
    ensures
        got_to(e, v, epoch, Seq::empty(), Seq::empty(), v),
        drain_asks(v, epoch, Seq::empty()) is None,
{
    let xs = Seq::<Inputs>::empty();
    assert forall|rest: Seq<Inputs>| #![trigger xs + rest] {
        &&& drain_step(v, epoch, xs + rest) == preceded(Seq::empty(), drain_step(v, epoch, rest))
        &&& all_inputs(e, v, epoch, xs + rest) == all_inputs(e, v, epoch, rest)
        &&& drain_asks(v, epoch, xs + rest) == drain_asks(v, epoch, rest)
    } by {
        assert(xs + rest =~= rest);
        let r = drain_step(v, epoch, rest);
        assert(r.1 is Ok ==> Seq::<EventView>::empty() + r.1->Ok_0 =~= r.1->Ok_0);
    }
}

/// One message more.
pub proof fn lemma_got_further(
    e: Embedder,
    start: ServerView,
    epoch: Epoch,
    xs: Seq<Inputs>,
    events: Seq<EventView>,
    v: ServerView,
    x: Inputs,
)
    requires
        got_to(e, start, epoch, xs, events, v),
        next_outcome(v.pending) matches Ok(Some((m, raw))) && inputs(e, taken(v), epoch, m, raw, x),
    ensures
        ({
            let (m, raw) = next_outcome(v.pending)->Ok_0->0;
            let (v1, out) = process_step(taken(v), epoch, m, raw, x);
            let all = xs.push(x);
            &&& drain_asks(start, epoch, all) == match drain_asks(start, epoch, xs) {
                Some(a) => Some(a),
                None => process_asks(taken(v), epoch, m, raw, x),
            }
            &&& drain_asks(start, epoch, xs) is Some ==> process_asks(taken(v), epoch, m, raw, x) is None
            &&& out matches Ok(given) ==> got_to(e, start, epoch, all, events + given, v1)
            &&& out matches Err(err) ==> {
                &&& drain_step(start, epoch, all) == (v1, Err::<Seq<EventView>, Error>(err))
                &&& all_inputs(e, start, epoch, all)
            }
        }),
{
    let (m, raw) = next_outcome(v.pending)->Ok_0->0;
    let (v1, out) = process_step(taken(v), epoch, m, raw, x);
    let all = xs.push(x);
    let asks = process_asks(taken(v), epoch, m, raw, x);
    law_hello_is_answered_once(taken(v), epoch, m, raw, x);
    assert(drain_asks(start, epoch, xs) is Some ==> asks is None) by {
        reveal(process_asks);
    }
    let one = seq![x] + Seq::<Inputs>::empty();
    assert(all =~= xs + one);
    lemma_drain_one(e, v, epoch, x, Seq::empty());
    if out is Ok {
        let given = out->Ok_0;
        assert(drain_asks(v1, epoch, Seq::empty()) is None);
        assert(drain_asks(start, epoch, all) is Some ==> v1.state != State::ExpectClientHello);
        assert forall|rest: Seq<Inputs>| #![trigger all + rest] {
            &&& drain_step(start, epoch, all + rest) == preceded(
                events + given,
                drain_step(v1, epoch, rest),
            )
            &&& all_inputs(e, start, epoch, all + rest) == all_inputs(e, v1, epoch, rest)
            &&& drain_asks(start, epoch, all + rest) == match drain_asks(start, epoch, all) {
                Some(a) => Some(a),
                None => drain_asks(v1, epoch, rest),
            }
        } by {
            lemma_drain_one(e, v, epoch, x, rest);
            assert(all + rest =~= xs + (seq![x] + rest));
            let r = drain_step(v1, epoch, rest);
            assert(r.1 is Ok ==> events + (given + r.1->Ok_0) =~= (events + given) + r.1->Ok_0);
        }
    }
}

} // verus!
