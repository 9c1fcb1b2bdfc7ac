//! The server's side of a TLS 1.3 handshake.

use vstd::prelude::*;

use crate::crypto::hash::{hashable, Algorithm, Transcript};
use crate::crypto::kdf::label_bytes;
use crate::crypto::material::{ExporterMasterSecret, FinishedVerifyData, TrafficSecret};
use crate::crypto::schedule::{exported, Schedule};
use crate::crypto::sig::SigningKey;
use crate::events_view;
use crate::handshake::reassemblers::HsReassembler;
use crate::handshake::{Handshake, MAX_HANDSHAKE_SIZE};
use crate::peer::{LeafKey, LeafKeyKind};
use crate::proto::{CERT_TYPE_RAW_PUBLIC_KEY, CERT_TYPE_X509};
use crate::psk::byte_strings;
use crate::record::CipherSuite;
use crate::server::client::outcome;
use crate::server::flight::{check_chain, MAX_EARLY_DATA_SIZE, MAX_TRANSPORT_PARAMS_LEN};
use crate::server::hello::bytes_of;
use crate::server::machine::{
    certificate_verify_step, charged, drain_asks, finished_step, fresh_server, got_to, hello_asks,
    hello_inputs, hello_step, inputs, law_process_keeps_setup, lemma_got_further, lemma_got_nowhere,
    lemma_taken, process_asks, process_step, read_asks, read_inputs, read_step, received,
    spans_epochs, taken, ticket_inputs, verdict_inputs, ConfigView, Embedder, HelloInputs, Inputs,
    ServerView, SourceView, TicketInputs, MAX_FLIGHT_LEN, MAX_TRANSCRIPT_LEN,
};
use crate::ticket::TicketKeys;
use crate::{Clock, Epoch, Error, Event, EventView};

pub mod agreement;
pub mod answer;
pub mod client;
pub mod conversation;
pub mod flight;
pub mod hello;
pub mod laws;
pub mod machine;
pub mod negotiation;
pub mod resumption;

pub use crate::server::machine::{ClientAuth, State};

verus! {

/// What an optional value stands for.
pub open spec fn seen<T: View>(o: Option<T>) -> Option<T::V> {
    match o {
        Some(v) => Some(v@),
        None => None,
    }
}

/// What a server presents itself with.
pub enum CertSource {
    RawPublicKey { signing_key: SigningKey },
    X509 { chain_der: Vec<Vec<u8>>, signing_key: SigningKey },
}

impl View for CertSource {
    type V = SourceView;

    open spec fn view(&self) -> SourceView {
        match self {
            CertSource::RawPublicKey { signing_key } => SourceView::RawPublicKey { key: signing_key@ },
            CertSource::X509 { chain_der, signing_key } => SourceView::X509 {
                chain: byte_strings(chain_der@),
                key: signing_key@,
            },
        }
    }
}

impl CertSource {
    /// The key that the server signs with.
    pub fn signing_key(&self) -> (r: &SigningKey)
        ensures
            r@ == self@.key(),
    {
        match self {
            CertSource::RawPublicKey { signing_key } => signing_key,
            CertSource::X509 { signing_key, .. } => signing_key,
        }
    }

    /// The type of certificate that the server presents.
    pub fn cert_type(&self) -> (r: u8)
        ensures
            r == self@.cert_type(),
    {
        match self {
            CertSource::RawPublicKey { .. } => CERT_TYPE_RAW_PUBLIC_KEY,
            CertSource::X509 { .. } => CERT_TYPE_X509,
        }
    }
}

/// How a server is set up.
pub struct Config {
    pub source: CertSource,
    pub transport_params: Vec<u8>,
    pub alpn_protocols: Vec<Vec<u8>>,
    pub ticket_keys: Option<TicketKeys>,
    pub accept_early_data: bool,
}

impl View for Config {
    type V = ConfigView;

    open spec fn view(&self) -> ConfigView {
        ConfigView {
            source: self.source@,
            transport_params: self.transport_params@,
            alpn_protocols: byte_strings(self.alpn_protocols@),
            ticket_keys: seen(self.ticket_keys),
            accept_early_data: self.accept_early_data,
        }
    }
}

impl Config {
    /// Whether the server can authenticate itself and send what it is set up to send:
    /// a bare key is an Ed25519 key; a chain is not empty, can be read and starts with
    /// a certificate for the signing key; and transport parameters and chain fit their
    /// length prefixes.
    pub fn validate(&self) -> (r: Result<(), Error>)
        ensures
            r == if self@.fits() {
                Ok::<(), Error>(())
            } else {
                Err(Error::BadConfig)
            },
    {
        if self.transport_params.len() > MAX_TRANSPORT_PARAMS_LEN {
            return Err(Error::BadConfig);
        }
        let authenticates = match &self.source {
            CertSource::RawPublicKey { signing_key } => signing_key.is_ed25519(),
            CertSource::X509 { chain_der, signing_key } => {
                assert(byte_strings(chain_der@) =~= chain_der@.map_values(|c: Vec<u8>| c@));
                check_chain(chain_der) && signing_key.matches_x509_chain(chain_der.as_slice())
            },
        };
        if authenticates {
            Ok(())
        } else {
            Err(Error::BadConfig)
        }
    }
}

/// Embedder-supplied replay store that makes 0-RTT early data safe.
///
/// Without a guard the server refuses early data even when `accept_early_data`
/// is set: neither the freshness window nor the single-use check can run.
pub trait EarlyDataGuard {
    /// Record a single-use token (the PSK binder); `false` means it was already
    /// seen, a replay. Tokens need only be kept for as long as a ticket lives.
    fn register(&mut self, token: &[u8]) -> bool;
}

/// Default guard for servers that never accept 0-RTT: reports every token as
/// already seen, so early data is always refused.
pub struct NoGuard;

impl EarlyDataGuard for NoGuard {
    fn register(&mut self, _token: &[u8]) -> (r: bool)
        ensures
            !r,
    {
        false
    }
}

/// A signature-verified client identity handed to [`ClientCertVerifier`].
pub struct ClientIdentity<'a> {
    /// `CERT_TYPE_X509` (0) or `CERT_TYPE_RAW_PUBLIC_KEY` (2).
    pub cert_type: u8,
    /// The leaf SubjectPublicKeyInfo DER, a uniform pinning target across key
    /// types. For RawPublicKey this is the entire certificate.
    pub spki_der: &'a [u8],
    /// The presented X.509 chain (leaf first); empty for RawPublicKey.
    pub chain_der: &'a [Vec<u8>],
}

/// Embedder hook that decides whether a signature-verified client identity is
/// authorized (the `authorized_keys` model: pin on `spki_der`). Verification of
/// possession (the CertificateVerify signature) has already passed when this is
/// called; this decides *authorization*, not authenticity.
pub trait ClientCertVerifier {
    fn verify(&self, identity: &ClientIdentity<'_>) -> bool;
}

/// Default [`ClientCertVerifier`] for a server that does not authenticate
/// clients; its [`verify`](ClientCertVerifier::verify) is never reached.
pub struct NoClientAuth;

impl ClientCertVerifier for NoClientAuth {
    fn verify(&self, _identity: &ClientIdentity<'_>) -> (r: bool)
        ensures
            !r,
    {
        false
    }
}

/// A server's connection.
pub struct Server<C: Clock, G: EarlyDataGuard = NoGuard, V: ClientCertVerifier = NoClientAuth> {
    config: Config,
    state: State,
    transcript: Transcript,
    transcript_len: u64,
    c_hs_traffic: Option<TrafficSecret>,
    expected_client_finished: Option<FinishedVerifyData>,
    c_ap_traffic: Option<TrafficSecret>,
    s_ap_traffic: Option<TrafficSecret>,
    selected_alpn: Option<Vec<u8>>,
    master: Option<Schedule>,
    early_data_guard: Option<G>,
    early_data_remaining: Option<u32>,
    clock: C,
    hrr_done: bool,
    exporter_master: Option<ExporterMasterSecret>,
    negotiated_suite: Option<CipherSuite>,
    reasm: HsReassembler,
    client_auth: Option<ClientAuth>,
    verifier: V,
    /// The client_certificate_type the server expects in the client's
    /// Certificate (CERT_TYPE_X509 by default).
    negotiated_client_cert_type: u8,
    /// The client's leaf key, captured during its Certificate, used to verify
    /// its CertificateVerify.
    client_leaf: Option<LeafKey>,
    client_spki_der: Vec<u8>,
    client_cert_chain: Vec<Vec<u8>>,
    /// Post-handshake KeyUpdates received since the last application-data record;
    /// reset by `note_application_data`. Bounds rekey flooding across records.
    key_updates_since_app_data: u32,
}

/// What an embedder's clock and verifier may say.
pub open spec fn embedder_of<C: Clock, V: ClientCertVerifier>(clock: C, verifier: V) -> Embedder {
    Embedder {
        tells: |now: u64| call_ensures(C::now_ms, (&clock,), now),
        allows: |cert_type: u8, spki: Seq<u8>, chain: Seq<Seq<u8>>, allowed: bool|
            exists|id: ClientIdentity<'_>|
                {
                    &&& id.cert_type == cert_type
                    &&& id.spki_der@ == spki
                    &&& byte_strings(id.chain_der@) == chain
                    &&& #[trigger] call_ensures(V::verify, (&verifier, &id), allowed)
                },
    }
}

/// A leaf key's kind and bytes.
pub open spec fn leaf_of(l: Option<LeafKey>) -> Option<(LeafKeyKind, Seq<u8>)> {
    match l {
        Some(k) => Some((k.kind, k.raw@)),
        None => None,
    }
}

impl<C: Clock, G: EarlyDataGuard, V: ClientCertVerifier> View for Server<C, G, V> {
    type V = ServerView;

    closed spec fn view(&self) -> ServerView {
        ServerView {
            config: self.config@,
            state: self.state,
            transcript: self.transcript@.messages,
            c_hs: seen(self.c_hs_traffic),
            expected_finished: seen(self.expected_client_finished),
            c_ap: seen(self.c_ap_traffic),
            s_ap: seen(self.s_ap_traffic),
            alpn: bytes_of(self.selected_alpn),
            master: seen(self.master),
            has_guard: self.early_data_guard is Some,
            early_data_remaining: self.early_data_remaining,
            hrr_done: self.hrr_done,
            exporter: seen(self.exporter_master),
            suite: self.negotiated_suite,
            pending: self.reasm@,
            client_auth: self.client_auth,
            client_cert_type: self.negotiated_client_cert_type,
            client_leaf: leaf_of(self.client_leaf),
            client_spki: self.client_spki_der@,
            client_chain: byte_strings(self.client_cert_chain@),
            key_updates: self.key_updates_since_app_data,
        }
    }
}

impl<C: Clock> Server<C, NoGuard, NoClientAuth> {
    /// A server that never accepts 0-RTT and does not authenticate clients. For
    /// 0-RTT use [`with_early_data_guard`](Server::with_early_data_guard); for
    /// mutual TLS use [`with_client_auth`](Server::with_client_auth). A
    /// configuration that no handshake could send, or whose signatures its
    /// certificate would not answer for, is refused.
    pub fn new(config: Config, clock: C) -> (r: Result<Self, Error>)
        requires
            clock.ready(),
        ensures
            !config@.fits() ==> r is Err && r->Err_0 == Error::BadConfig,
            config@.fits() ==> r is Ok && r->Ok_0.valid() && r->Ok_0.clock() == clock
                && r->Ok_0.client_verifier() == NoClientAuth && r->Ok_0.guard() is None
                && r->Ok_0@ == fresh_server(config@, false, None),
    {
        Self::build(config, clock, None, None, NoClientAuth)
    }
}

impl<C: Clock, G: EarlyDataGuard> Server<C, G, NoClientAuth> {
    /// A server that accepts 0-RTT, gated by `guard` (replay store + freshness).
    pub fn with_early_data_guard(config: Config, clock: C, guard: G) -> (r: Result<Self, Error>)
        requires
            clock.ready(),
        ensures
            !config@.fits() ==> r is Err && r->Err_0 == Error::BadConfig,
            config@.fits() ==> r is Ok && r->Ok_0.valid() && r->Ok_0.clock() == clock
                && r->Ok_0.client_verifier() == NoClientAuth && r->Ok_0.guard() == Some(guard)
                && r->Ok_0@ == fresh_server(config@, true, None),
    {
        Self::build(config, clock, Some(guard), None, NoClientAuth)
    }
}

impl<C: Clock, V: ClientCertVerifier> Server<C, NoGuard, V> {
    /// A server that authenticates the client (mutual TLS). `verifier` decides
    /// authorization of each possession-proven identity (the `authorized_keys`
    /// model); `mode` chooses whether an anonymous client is tolerated.
    pub fn with_client_auth(config: Config, clock: C, mode: ClientAuth, verifier: V) -> (r: Result<Self, Error>)
        requires
            clock.ready(),
        ensures
            !config@.fits() ==> r is Err && r->Err_0 == Error::BadConfig,
            config@.fits() ==> r is Ok && r->Ok_0.valid() && r->Ok_0.clock() == clock
                && r->Ok_0.client_verifier() == verifier && r->Ok_0.guard() is None
                && r->Ok_0@ == fresh_server(
                config@,
                false,
                Some(mode),
            ),
    {
        Self::build(config, clock, None, Some(mode), verifier)
    }
}

impl<C: Clock, G: EarlyDataGuard, V: ClientCertVerifier> Server<C, G, V> {
    /// The embedder's clock.
    pub closed spec fn clock(self) -> C {
        self.clock
    }

    /// The embedder's guard, where it has one.
    pub closed spec fn guard(self) -> Option<G> {
        self.early_data_guard
    }

    /// The embedder's verifier.
    pub closed spec fn client_verifier(self) -> V {
        self.verifier
    }

    /// What the embedder may say.
    pub open spec fn embedder(self) -> Embedder {
        embedder_of(self.clock(), self.client_verifier())
    }

    /// Whether the clock and the verifier are the same as before.
    pub open spec fn serves(self, before: Self) -> bool {
        self.clock() == before.clock() && self.client_verifier() == before.client_verifier()
    }

    /// Whether the clock, the verifier and the guard are the same as before.
    pub open spec fn keeps(self, before: Self) -> bool {
        self.serves(before) && self.guard() == before.guard()
    }

    /// Whether what the server would send fits, its transcript is not overlong, and its
    /// clock can be read.
    pub closed spec fn valid(self) -> bool {
        &&& self.config@.fits()
        &&& self.clock.ready()
        &&& self.transcript@.selected is None
        &&& self.transcript_len == self.transcript@.messages.len()
        &&& self.transcript_len <= MAX_TRANSCRIPT_LEN + MAX_FLIGHT_LEN
    }

    /// Both 0-RTT (gated by `guard`) and mutual TLS (`mode` + `verifier`).
    pub fn with_early_data_guard_and_client_auth(
        config: Config,
        clock: C,
        guard: G,
        mode: ClientAuth,
        verifier: V,
    ) -> (r: Result<Self, Error>)
        requires
            clock.ready(),
        ensures
            !config@.fits() ==> r is Err && r->Err_0 == Error::BadConfig,
            config@.fits() ==> r is Ok && r->Ok_0.valid() && r->Ok_0.clock() == clock
                && r->Ok_0.client_verifier() == verifier && r->Ok_0.guard() == Some(guard)
                && r->Ok_0@ == fresh_server(
                config@,
                true,
                Some(mode),
            ),
    {
        Self::build(config, clock, Some(guard), Some(mode), verifier)
    }

    fn build(
        config: Config,
        clock: C,
        early_data_guard: Option<G>,
        client_auth: Option<ClientAuth>,
        verifier: V,
    ) -> (r: Result<Self, Error>)
        requires
            clock.ready(),
        ensures
            !config@.fits() ==> r is Err && r->Err_0 == Error::BadConfig,
            config@.fits() ==> r is Ok && r->Ok_0.valid() && r->Ok_0.clock() == clock
                && r->Ok_0.client_verifier() == verifier && r->Ok_0.guard() == early_data_guard
                && r->Ok_0@ == fresh_server(
                config@,
                early_data_guard is Some,
                client_auth,
            ),
    {
        match config.validate() {
            Ok(()) => {},
            Err(e) => return Err(e),
        }
        let s = Self {
            config,
            clock,
            early_data_guard,
            early_data_remaining: None,
            state: State::ExpectClientHello,
            transcript: Transcript::new(),
            transcript_len: 0,
            c_hs_traffic: None,
            expected_client_finished: None,
            c_ap_traffic: None,
            s_ap_traffic: None,
            selected_alpn: None,
            master: None,
            hrr_done: false,
            exporter_master: None,
            negotiated_suite: None,
            reasm: HsReassembler::new(),
            client_auth,
            verifier,
            negotiated_client_cert_type: CERT_TYPE_X509,
            client_leaf: None,
            client_spki_der: Vec::new(),
            client_cert_chain: Vec::new(),
            key_updates_since_app_data: 0,
        };
        assert(s@ =~= fresh_server(s.config@, s.early_data_guard is Some, s.client_auth)) by {
            assert(byte_strings(s.client_cert_chain@) =~= Seq::empty());
            assert(s.client_spki_der@ =~= Seq::<u8>::empty());
        }
        Ok(s)
    }

    /// Exported keying material. Available only after the server Finished has been
    /// sent.
    pub fn export_keying_material(&self, label: &str, context: &[u8], out: &mut [u8]) -> (r: Result<(), Error>)
        requires
            hashable(context@),
        ensures
            match self@.exporter {
                None => r == Err::<(), Error>(Error::NotReady) && final(out)@ == old(out)@,
                Some(secret) => match exported(
                    self@.alg(),
                    secret,
                    label_bytes(label),
                    context@,
                    old(out)@.len(),
                ) {
                    Ok(okm) => r == Ok::<(), Error>(()) && final(out)@ == okm,
                    Err(_) => r == Err::<(), Error>(Error::Encode) && final(out)@ == old(out)@,
                },
            },
    {
        match &self.exporter_master {
            None => Err(Error::NotReady),
            Some(em) => match Schedule::export_keying_material(
                self.hash_alg(),
                em.as_slice(),
                label,
                context,
                out,
            ) {
                Ok(()) => Ok(()),
                Err(e) => Err(Error::from(e)),
            },
        }
    }

    /// The application protocol that was chosen.
    pub fn selected_alpn(&self) -> (r: Option<&[u8]>)
        ensures
            match self@.alpn {
                Some(p) => r matches Some(s) && s@ == p,
                None => r is None,
            },
    {
        match &self.selected_alpn {
            Some(p) => Some(p.as_slice()),
            None => None,
        }
    }

    /// The negotiated record-protection suite, available once the ClientHello is
    /// processed. The embedder builds its record sealer/opener for this suite.
    pub fn negotiated_cipher_suite(&self) -> (r: Option<CipherSuite>)
        ensures
            r == self@.suite,
    {
        self.negotiated_suite
    }

    /// The 0-RTT early-data byte budget the server advertised for this connection,
    /// or `None` if early data was not accepted or the early-data window has
    /// already closed (EndOfEarlyData processed).
    ///
    /// 0-RTT *application* records arrive at [`Epoch::EarlyData`] and are decrypted
    /// by the embedder, so those plaintext bytes are never seen here. Whenever this
    /// returns `Some`, the embedder MUST call
    /// [`note_early_data`](Self::note_early_data) for every early-data plaintext
    /// chunk it routes to the application; that call enforces this limit.
    pub fn max_early_data_size(&self) -> (r: Option<u32>)
        ensures
            r == match self@.early_data_remaining {
                Some(_) => Some(MAX_EARLY_DATA_SIZE),
                None => None,
            },
    {
        match self.early_data_remaining {
            Some(_) => Some(MAX_EARLY_DATA_SIZE),
            None => None,
        }
    }

    /// Charge `len` plaintext bytes of received 0-RTT early data against the
    /// advertised [`max_early_data_size`](Self::max_early_data_size). The embedder
    /// MUST call this for every `Epoch::EarlyData` application record it decrypts,
    /// before delivering those bytes to the application.
    ///
    /// Returns [`Error::EarlyDataLimitExceeded`] once the client exceeds the limit,
    /// and likewise if called when no early-data window is open. On error the window
    /// is closed; the embedder must abort the connection.
    pub fn note_early_data(&mut self, len: usize) -> (r: Result<(), Error>)
        requires
            old(self).valid(),
        ensures
            final(self).valid(),
            final(self).keeps(*old(self)),
            final(self)@ == (ServerView {
                early_data_remaining: charged(old(self)@.early_data_remaining, len as nat),
                ..old(self)@
            }),
            r == if final(self)@.early_data_remaining is Some {
                Ok::<(), Error>(())
            } else {
                Err(Error::EarlyDataLimitExceeded)
            },
    {
        match self.early_data_remaining {
            None => Err(Error::EarlyDataLimitExceeded),
            Some(left) => if len <= left as usize {
                self.early_data_remaining = Some(left - len as u32);
                Ok(())
            } else {
                self.early_data_remaining = None;
                Err(Error::EarlyDataLimitExceeded)
            },
        }
    }

    /// Record that an `Epoch::Application` application-data record was received,
    /// marking forward progress that resets the post-handshake KeyUpdate flood
    /// counter (see `MAX_KEY_UPDATES_WITHOUT_APP_DATA`). The embedder SHOULD call
    /// this for every application-data record it decrypts; without it, a peer that
    /// floods KeyUpdates with no intervening application data is aborted once the
    /// cap is reached.
    pub fn note_application_data(&mut self)
        requires
            old(self).valid(),
        ensures
            final(self).valid(),
            final(self).keeps(*old(self)),
            final(self)@ == (ServerView { key_updates: 0, ..old(self)@ }),
    {
        self.key_updates_since_app_data = 0;
    }

    /// Whether the handshake is complete.
    pub fn is_done(&self) -> (r: bool)
        ensures
            r == (self@.state == State::Done),
    {
        self.state == State::Done
    }

    fn hash_alg(&self) -> (r: Algorithm)
        ensures
            r == self@.alg(),
    {
        match self.negotiated_suite {
            Some(s) => s.hash_alg(),
            None => Algorithm::Sha256,
        }
    }

    fn now_ms(&self) -> (now: u64)
        requires
            self.valid(),
        ensures
            (self.embedder().tells)(now),
    {
        self.clock.now_ms()
    }

    /// Processes one message. A message that the server does not wait for, or that
    /// came under other keys than it has to, is refused.
    fn process(&mut self, epoch: Epoch, msg: Handshake, raw: &[u8]) -> (r: Result<Vec<Event>, Error>)
        requires
            old(self).valid(),
            raw@.len() <= MAX_HANDSHAKE_SIZE,
        ensures
            final(self).valid(),
            final(self).serves(*old(self)),
            exists|x: Inputs|
                {
                    &&& inputs(old(self).embedder(), old(self)@, epoch, msg@, raw@, x)
                    &&& (final(self)@, outcome(r)) == #[trigger] process_step(
                        old(self)@,
                        epoch,
                        msg@,
                        raw@,
                        x,
                    )
                    &&& match process_asks(old(self)@, epoch, msg@, raw@, x) {
                        None => final(self).guard() == old(self).guard(),
                        Some(a) => exists|g: &mut G, t: &[u8]|
                            {
                                &&& t@ == a.token
                                &&& old(self).guard() == Some(*g)
                                &&& final(self).guard() == Some(*final(g))
                                &&& #[trigger] call_ensures(G::register, (g, t), a.fresh)
                            },
                    }
                },
    {
        proof {
            reveal(process_step);
            reveal(process_asks);
            reveal(hello_inputs);
        }
        let ghost v = self@;
        let ghost e = self.embedder();
        let ghost m = msg@;
        let ghost none = no_inputs();
        let ghost refused = process_step(v, epoch, m, raw@, none);
        if self.transcript_len > MAX_TRANSCRIPT_LEN {
            return Err(Error::Decode);
        }
        match msg {
            Handshake::ClientHello(ch) => {
                if self.state != State::ExpectClientHello || epoch != Epoch::Plaintext {
                    return Err(Error::UnexpectedMessage);
                }
                let r = self.handle_client_hello(ch, raw);
                proof {
                    let hello = choose|x: HelloInputs|
                        {
                            &&& hello_inputs(e, v, ch@, raw@, x)
                            &&& (self@, outcome(r)) == #[trigger] hello_step(v, ch@, raw@, x)
                            &&& match hello_asks(v, ch@, raw@, x) {
                                None => self.guard() == old(self).guard(),
                                Some(a) => exists|g: &mut G, t: &[u8]|
                                    {
                                        &&& t@ == a.token
                                        &&& old(self).guard() == Some(*g)
                                        &&& self.guard() == Some(*final(g))
                                        &&& #[trigger] call_ensures(G::register, (g, t), a.fresh)
                                    },
                            }
                        };
                    let x = Inputs { hello, ..none };
                    assert((self@, outcome(r)) == process_step(v, epoch, m, raw@, x));
                }
                r
            },
            Handshake::EndOfEarlyData => {
                if self.state != State::ExpectEndOfEarlyData || epoch != Epoch::EarlyData {
                    return Err(Error::UnexpectedMessage);
                }
                self.handle_end_of_early_data(raw)
            },
            Handshake::Certificate(c) => {
                if self.state != State::ExpectClientCertificate || epoch != Epoch::Handshake {
                    return Err(Error::UnexpectedMessage);
                }
                self.handle_client_certificate(c, raw)
            },
            Handshake::CertificateVerify(c) => {
                if self.state != State::ExpectClientCertVerify || epoch != Epoch::Handshake {
                    return Err(Error::UnexpectedMessage);
                }
                let r = self.handle_client_cert_verify(c, raw);
                proof {
                    let allowed = choose|allowed: bool|
                        verdict_inputs(e, v, c@, allowed) && (self@, outcome(r))
                            == #[trigger] certificate_verify_step(v, c@, raw@, allowed);
                    let x = Inputs { allowed, ..none };
                    assert((self@, outcome(r)) == process_step(v, epoch, m, raw@, x));
                }
                r
            },
            Handshake::Finished(f) => {
                if self.state != State::ExpectClientFinished || epoch != Epoch::Handshake {
                    return Err(Error::UnexpectedMessage);
                }
                let r = self.handle_client_finished(f, raw);
                proof {
                    let ticket = choose|x: TicketInputs|
                        (v.expected_finished == Some(f.verify_data@) ==> ticket_inputs(e, v, x)) && (
                        self@,
                        outcome(r),
                        ) == #[trigger] finished_step(v, f.verify_data@, raw@, x);
                    let x = Inputs { ticket, ..none };
                    assert((self@, outcome(r)) == process_step(v, epoch, m, raw@, x));
                }
                r
            },
            Handshake::KeyUpdate(ku) => {
                if self.state != State::Done || epoch != Epoch::Application {
                    return Err(Error::UnexpectedMessage);
                }
                self.handle_key_update(ku)
            },
            _ => Err(Error::UnexpectedMessage),
        }
    }

    /// Reads a record's bytes and processes the messages that they complete. Once an
    /// error came back, the connection is to be given up.
    pub fn read(&mut self, epoch: Epoch, data: &[u8]) -> (r: Result<Vec<Event>, Error>)
        requires
            old(self).valid(),
        ensures
            final(self).valid(),
            final(self).serves(*old(self)),
            exists|xs: Seq<Inputs>|
                {
                    &&& read_inputs(old(self).embedder(), old(self)@, epoch, data@, xs)
                    &&& (final(self)@, outcome(r)) == #[trigger] read_step(old(self)@, epoch, data@, xs)
                    &&& match read_asks(old(self)@, epoch, data@, xs) {
                        None => final(self).guard() == old(self).guard(),
                        Some(a) => exists|g: &mut G, t: &[u8]|
                            {
                                &&& t@ == a.token
                                &&& old(self).guard() == Some(*g)
                                &&& final(self).guard() == Some(*final(g))
                                &&& #[trigger] call_ensures(G::register, (g, t), a.fresh)
                            },
                    }
                },
    {
        let ghost v = self@;
        let ghost said = self.embedder();
        match self.reasm.push(epoch, data) {
            Ok(()) => {},
            Err(_) => {
                let ghost refused = read_step(v, epoch, data@, Seq::empty());
                return Err(Error::Decode);
            },
        }
        let ghost start = received(v, epoch, data@);
        assert(self@ =~= start);
        let mut events: Vec<Event> = Vec::new();
        proof {
            assert(events_view(events@) =~= Seq::empty());
            lemma_got_nowhere(said, start, epoch);
        }
        loop
            invariant
                self.valid(),
                self.serves(*old(self)),
                said == old(self).embedder(),
                !spans_epochs(v, epoch),
                v == old(self)@,
                start == received(v, epoch, data@),
                exists|xs: Seq<Inputs>|
                    {
                        &&& #[trigger] got_to(said, start, epoch, xs, events_view(events@), self@)
                        &&& match drain_asks(start, epoch, xs) {
                            None => self.guard() == old(self).guard(),
                            Some(a) => exists|g: &mut G, t: &[u8]|
                                {
                                    &&& t@ == a.token
                                    &&& old(self).guard() == Some(*g)
                                    &&& self.guard() == Some(*final(g))
                                    &&& #[trigger] call_ensures(G::register, (g, t), a.fresh)
                                },
                        }
                    },
            decreases self@.pending.pending.len(),
        {
            let ghost before = self@;
            let ghost guard = self.guard();
            let ghost xs = choose|xs: Seq<Inputs>|
                {
                    &&& #[trigger] got_to(said, start, epoch, xs, events_view(events@), before)
                    &&& match drain_asks(start, epoch, xs) {
                        None => guard == old(self).guard(),
                        Some(a) => exists|g: &mut G, t: &[u8]|
                            {
                                &&& t@ == a.token
                                &&& old(self).guard() == Some(*g)
                                &&& guard == Some(*final(g))
                                &&& #[trigger] call_ensures(G::register, (g, t), a.fresh)
                            },
                    }
                };
            let next = self.reasm.next_message();
            assert(self@ =~= taken(before));
            proof {
                lemma_taken(before);
            }
            match next {
                Err(e) => {
                    let ghost step = read_step(v, epoch, data@, xs);
                    assert(xs + Seq::empty() =~= xs);
                    return Err(e);
                },
                Ok(None) => {
                    let ghost step = read_step(v, epoch, data@, xs);
                    assert(xs + Seq::empty() =~= xs);
                    assert(events_view(events@) + Seq::<EventView>::empty() =~= events_view(events@));
                    return Ok(events);
                },
                Ok(Some((msg, raw))) => {
                    let ghost m = msg@;
                    let out = self.process(epoch, msg, raw.as_slice());
                    let ghost after = self@;
                    let ghost x = choose|x: Inputs|
                        {
                            &&& inputs(said, taken(before), epoch, m, raw@, x)
                            &&& (after, outcome(out)) == #[trigger] process_step(
                                taken(before),
                                epoch,
                                m,
                                raw@,
                                x,
                            )
                            &&& match process_asks(taken(before), epoch, m, raw@, x) {
                                None => self.guard() == guard,
                                Some(a) => exists|g: &mut G, t: &[u8]|
                                    {
                                        &&& t@ == a.token
                                        &&& guard == Some(*g)
                                        &&& self.guard() == Some(*final(g))
                                        &&& #[trigger] call_ensures(G::register, (g, t), a.fresh)
                                    },
                            }
                        };
                    proof {
                        law_process_keeps_setup(taken(before), epoch, m, raw@, x);
                        lemma_got_further(said, start, epoch, xs, events_view(events@), before, x);
                    }
                    let mut more = match out {
                        Ok(more) => more,
                        Err(e) => {
                            let ghost step = read_step(v, epoch, data@, xs.push(x));
                            return Err(e);
                        },
                    };
                    let ghost given = more@;
                    let ghost sofar = events@;
                    events.append(&mut more);
                    assert(events_view(events@) =~= events_view(sofar) + events_view(given));
                },
            }
        }
    }
}

/// Nothing from outside.
pub open spec fn no_inputs() -> Inputs {
    Inputs {
        hello: HelloInputs {
            now: 0,
            early_now: 0,
            registered: false,
            exchange: None,
            random: None,
            signature: None,
        },
        allowed: false,
        ticket: TicketInputs { now: 0, nonce: None, age_add: None, seal_nonce: None },
    }
}

} // verus!
