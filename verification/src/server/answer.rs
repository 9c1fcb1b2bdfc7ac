//! How a server answers a ClientHello.

use vstd::prelude::*;

use crate::codec::{bytes_eq, put_slice, to_vec, MAX_U24};
use crate::crypto::hash::{hashable, message_hash, Algorithm, Digest, Transcript};
use crate::crypto::kdf::{label_bytes, lemma_derives, lemma_label_lengths};
use crate::crypto::kx::{answers_share, KexGroup};
use crate::crypto::material::{FinishedVerifyData, TrafficSecret};
use crate::crypto::hash::Secret;
use crate::crypto::rng::random_array;
use crate::crypto::schedule::{Schedule, ScheduleView};
use crate::events_view;
use crate::extension::{ExtensionType, ExtensionView};
use crate::handshake::{ClientHello, ClientHelloView, MAX_HANDSHAKE_SIZE, RANDOM_LEN};
use crate::identity::spki::SubjectPublicKey;
use crate::proto::{CertVerify, Finished as FinishedProto};
use crate::psk::byte_strings;
use crate::record::CipherSuite;
use crate::server::client::{outcome, shared};
use crate::server::flight::{
    certificate_message, chain_len, encode_answers, encode_certificate, encode_certificate_request,
    encode_certificate_verify, encode_finished, encode_retry_request, encode_server_hello,
    MAX_EARLY_DATA_SIZE,
};
use crate::server::hello::{
    bytes_of, choose_client_cert_type, chosen_suite, copied, extension_data, has_u8, hello_terms, read_terms,
    select_suite, Offers,
};
use crate::server::machine::{
    closing, early_asked, early_eligible, early_events, flight, hello_asks, hello_inputs, hello_step,
    offered_psk, opening, resumes, retry_step, settle_asks, settle_inputs, settled, signs_opening, stage_secret,
    to_sign, traffic, Asked, Embedder, FlightTerms, HelloInputs, OpeningView, ServerView, MAX_TRANSCRIPT_LEN,
};
use crate::server::resumption::{accept_psk, is_fresh, psk_view, AcceptedPsk, AcceptedPskView};
use crate::server::{CertSource, ClientCertVerifier, EarlyDataGuard, Server, State};
use crate::{Clock, Epoch, Error, Event, EventView};

verus! {

/// What the server's flight rests on.
pub struct Terms {
    pub session_id: Vec<u8>,
    pub group: KexGroup,
    pub offers: Offers,
    pub psk: Option<AcceptedPsk>,
    pub early: bool,
}

impl View for Terms {
    type V = FlightTerms;

    open spec fn view(&self) -> FlightTerms {
        FlightTerms {
            session_id: self.session_id@,
            group: self.group,
            offers: self.offers@,
            psk: psk_view(self.psk),
            early: self.early,
        }
    }
}

/// The server's flight up to its signature.
pub struct Opening {
    pub schedule: Schedule,
    pub c_hs: TrafficSecret,
    pub s_hs: TrafficSecret,
    pub blob: Vec<u8>,
    pub events: Vec<Event>,
}

impl View for Opening {
    type V = OpeningView;

    open spec fn view(&self) -> OpeningView {
        OpeningView {
            secret: self.schedule@.secret,
            c_hs: self.c_hs@,
            s_hs: self.s_hs@,
            blob: self.blob@,
            events: events_view(self.events@),
        }
    }
}

/// What a result says.
pub open spec fn opened(r: Result<Opening, Error>) -> Result<OpeningView, Error> {
    match r {
        Ok(o) => Ok(o@),
        Err(e) => Err(e),
    }
}

/// The handshake stage's secret and its traffic secrets over a transcript hash.
fn handshake_stage(alg: Algorithm, psk: &Option<AcceptedPsk>, dhe: &[u8], hash: &Digest) -> (r: (
    Schedule,
    TrafficSecret,
    TrafficSecret,
))
    requires
        hashable(dhe@),
        hash@.len() <= 255,
    ensures
        r.0@ == (ScheduleView { alg, secret: stage_secret(alg, psk_view(*psk), dhe@) }),
        r.1@ == traffic(alg, r.0@.secret, label_bytes("c hs traffic"), hash@),
        r.2@ == traffic(alg, r.0@.secret, label_bytes("s hs traffic"), hash@),
{
    let early = match psk {
        Some(p) => Schedule::new_psk(alg, &p.psk),
        None => Schedule::new(alg),
    };
    let schedule = early.into_handshake(dhe).unwrap();
    proof {
        lemma_label_lengths();
        lemma_derives(alg, schedule@.secret, label_bytes("c hs traffic"), hash@);
        lemma_derives(alg, schedule@.secret, label_bytes("s hs traffic"), hash@);
    }
    let c_hs = schedule.client_handshake_traffic_secret(hash.as_slice()).unwrap();
    let s_hs = schedule.server_handshake_traffic_secret(hash.as_slice()).unwrap();
    (schedule, c_hs, s_hs)
}

impl<C: Clock, G: EarlyDataGuard, V: ClientCertVerifier> Server<C, G, V> {
    /// The Certificate message that the server presents itself with.
    fn present(&self) -> (r: Result<Vec<u8>, Error>)
        requires
            self.valid(),
        ensures
            match self@.config.source.presented() {
                Ok(chain) => r is Ok && r->Ok_0@ == certificate_message(chain).bytes() && r->Ok_0@.len()
                    <= MAX_U24 + 4,
                Err(e) => r is Err && r->Err_0 == e,
            },
    {
        match &self.config.source {
            CertSource::RawPublicKey { signing_key } => {
                let pubkey = match signing_key.pubkey() {
                    Some(k) => k,
                    None => return Err(Error::Sig),
                };
                let der = to_vec(&SubjectPublicKey::encoded_ed25519(pubkey));
                let ghost d = der@;
                let chain: Vec<Vec<u8>> = vec![der];
                assert(byte_strings(chain@) =~= seq![d]);
                assert(seq![d].drop_last() =~= Seq::empty());
                assert(chain_len(seq![d]) == chain_len(Seq::empty()) + d.len() + 5);
                Ok(encode_certificate(&chain))
            },
            CertSource::X509 { chain_der, .. } => Ok(encode_certificate(chain_der)),
        }
    }

    /// Sends ServerHello, EncryptedExtensions and, where no session is resumed, what
    /// the server presents.
    #[verifier::rlimit(60)]
    pub(crate) fn open_flight(&mut self, t: &Terms, share: &[u8], dhe: &[u8], random: [u8; RANDOM_LEN]) -> (r:
        Result<Opening, Error>)
        requires
            old(self).valid(),
            old(self)@.suite is Some,
            old(self)@.transcript.len() <= MAX_TRANSCRIPT_LEN + MAX_HANDSHAKE_SIZE,
            t.session_id@.len() <= 32,
            share@.len() <= 4096,
            hashable(dhe@),
        ensures
            final(self).valid(),
            final(self).keeps(*old(self)),
            (final(self)@, opened(r)) == opening(old(self)@, t@, share@, dhe@, random@),
            final(self)@.transcript.len() <= MAX_TRANSCRIPT_LEN + MAX_HANDSHAKE_SIZE + 4 * (MAX_U24 + 4),
            r matches Ok(o) ==> o.schedule@.alg == old(self)@.alg(),
    {
        let ghost v = self@;
        let ghost step = opening(v, t@, share@, dhe@, random@);
        let alg = self.hash_alg();
        let suite = self.negotiated_suite.unwrap();
        let hello = encode_server_hello(
            random,
            t.session_id.as_slice(),
            suite,
            t.group,
            share,
            t.psk.is_some(),
        );
        self.absorb(hello.as_slice());
        let hash = self.transcript_hash();
        let (schedule, c_hs, s_hs) = handshake_stage(alg, &t.psk, dhe, &hash);
        let read_secret = shared(&c_hs);
        let write_secret = shared(&s_hs);
        let mut events: Vec<Event> = Vec::new();
        events.push(Event::Send { epoch: Epoch::Plaintext, data: hello });
        events.push(Event::KeysReady { epoch: Epoch::Handshake, read_secret, write_secret });
        let server_type: u8 = self.config.source.cert_type();
        if let Some(offered) = &t.offers.server_types {
            if !has_u8(offered.as_slice(), server_type) {
                return Err(Error::UnexpectedMessage);
            }
        }
        let client_type: u8 = choose_client_cert_type(&t.offers.client_types);
        self.negotiated_client_cert_type = client_type;
        let extensions = match encode_answers(
            server_type,
            client_type,
            &t.offers,
            self.config.transport_params.as_slice(),
            t.early,
        ) {
            Ok(b) => b,
            Err(e) => return Err(e),
        };
        self.absorb(extensions.as_slice());
        let mut blob = extensions;
        let ghost sent = blob@;
        if t.psk.is_none() && self.client_auth.is_some() {
            let request = encode_certificate_request();
            self.absorb(request.as_slice());
            put_slice(&mut blob, request.as_slice());
        } else {
            assert(sent + Seq::<u8>::empty() =~= sent);
            assert(self@.transcript + Seq::<u8>::empty() =~= self@.transcript);
            assert(self@.grown(Seq::empty()) =~= self@);
        }
        if t.psk.is_none() {
            let certificate = self.present()?;
            self.absorb(certificate.as_slice());
            put_slice(&mut blob, certificate.as_slice());
        }
        assert(self@ =~= step.0);
        let o = Opening { schedule, c_hs, s_hs, blob, events };
        assert(o@.events =~= step.1->Ok_0.events);
        assert(o@ =~= step.1->Ok_0);
        Ok(o)
    }

    /// What the server is to sign after its opening.
    pub(crate) fn signing_input(&self) -> (r: Vec<u8>)
        requires
            self.valid(),
        ensures
            r@ == to_sign(self@),
            hashable(r@),
    {
        let hash = self.transcript_hash();
        CertVerify::message(hash.as_slice(), true)
    }

    /// Ends the server's flight: its proof of possession, where no session is
    /// resumed, and its Finished. With it the application's secrets are known.
    #[verifier::rlimit(60)]
    pub(crate) fn close_flight(&mut self, t: &Terms, o: Opening, sig: Option<Vec<u8>>) -> (r: Result<
        Vec<Event>,
        Error,
    >)
        requires
            old(self).valid(),
            old(self)@.transcript.len() <= MAX_TRANSCRIPT_LEN + MAX_HANDSHAKE_SIZE + 4 * (MAX_U24 + 4),
            o.schedule@.alg == old(self)@.alg(),
            sig matches Some(s) ==> s@.len() <= 0xffff,
        ensures
            final(self).valid(),
            final(self).keeps(*old(self)),
            (final(self)@, outcome(r)) == closing(old(self)@, t@, o@, bytes_of(sig)),
    {
        let ghost step = closing(old(self)@, t@, o@, bytes_of(sig));
        let ghost before = o@;
        let alg = self.hash_alg();
        let mut events = o.events;
        let mut blob = o.blob;
        if t.psk.is_none() {
            let sig = match sig {
                Some(s) => s,
                None => return Err(Error::Sig),
            };
            let scheme: u16 = self.config.source.signing_key().sig_scheme().wire_id();
            let possession = encode_certificate_verify(scheme, sig);
            self.absorb(possession.as_slice());
            put_slice(&mut blob, possession.as_slice());
        } else {
            assert(self@.transcript + Seq::<u8>::empty() =~= self@.transcript);
            assert(self@.grown(Seq::empty()) =~= self@);
            assert(blob@ + Seq::<u8>::empty() =~= blob@);
        }
        let hash = self.transcript_hash();
        let data = FinishedProto::verify_data(alg, o.s_hs.as_slice(), hash.as_slice());
        let finished = encode_finished(data.as_slice());
        self.absorb(finished.as_slice());
        put_slice(&mut blob, finished.as_slice());
        let hash = self.transcript_hash();
        let master = o.schedule.into_master().unwrap();
        proof {
            lemma_label_lengths();
            lemma_derives(alg, master@.secret, label_bytes("c ap traffic"), hash@);
            lemma_derives(alg, master@.secret, label_bytes("s ap traffic"), hash@);
            lemma_derives(alg, master@.secret, label_bytes("exp master"), hash@);
        }
        let c_ap = master.client_application_traffic_secret(hash.as_slice()).unwrap();
        let s_ap = master.server_application_traffic_secret(hash.as_slice()).unwrap();
        let exporter = master.exporter_master_secret(hash.as_slice()).unwrap();
        let read_secret = shared(&c_ap);
        let write_secret = shared(&s_ap);
        events.push(Event::Send { epoch: Epoch::Handshake, data: blob });
        events.push(Event::KeysReady { epoch: Epoch::Application, read_secret, write_secret });
        self.c_ap_traffic = Some(c_ap);
        self.s_ap_traffic = Some(s_ap);
        self.exporter_master = Some(exporter);
        self.master = Some(master);
        if t.early {
            self.early_data_remaining = Some(MAX_EARLY_DATA_SIZE);
            self.state = State::ExpectEndOfEarlyData;
        } else if t.psk.is_none() && self.client_auth.is_some() {
            self.state = State::ExpectClientCertificate;
        } else {
            let expected = FinishedProto::verify_data(alg, o.c_hs.as_slice(), hash.as_slice());
            self.expected_client_finished = Some(
                FinishedVerifyData::from_secret(Secret::from_slice(expected.as_slice())),
            );
            self.state = State::ExpectClientFinished;
        }
        self.c_hs_traffic = Some(o.c_hs);
        assert(self@ =~= step.0);
        assert(events_view(events@) =~= step.1->Ok_0);
        Ok(events)
    }

    /// Asks for a retry (one only) when the ClientHello carried no usable key_share,
    /// rewriting the transcript to the hash of the message.
    pub(crate) fn send_hello_retry_request(&mut self, raw: &[u8], session_id: &[u8], group: KexGroup) -> (r:
        Result<Vec<Event>, Error>)
        requires
            old(self).valid(),
            old(self)@.suite is Some,
            raw@.len() <= MAX_HANDSHAKE_SIZE,
            session_id@.len() <= 32,
        ensures
            final(self).valid(),
            final(self).keeps(*old(self)),
            (final(self)@, outcome(r)) == retry_step(old(self)@, raw@, session_id@, group),
    {
        let alg = self.hash_alg();
        let suite = self.negotiated_suite.unwrap();
        let request = encode_retry_request(session_id, suite, group);
        let digest = alg.hash(raw);
        let mut synthetic: Vec<u8> = vec![0xfe, 0x00, 0x00, digest.len() as u8];
        put_slice(&mut synthetic, digest.as_slice());
        assert(synthetic@ =~= message_hash(digest@));
        self.transcript = Transcript::new();
        self.transcript_len = 0;
        self.absorb(synthetic.as_slice());
        self.absorb(request.as_slice());
        self.hrr_done = true;
        let mut events: Vec<Event> = Vec::new();
        events.push(Event::Send { epoch: Epoch::Plaintext, data: request });
        let ghost step = retry_step(old(self)@, raw@, session_id@, group);
        assert(self@.transcript =~= step.0.transcript);
        assert(self@ =~= step.0);
        assert(events_view(events@) =~= step.1->Ok_0);
        Ok(events)
    }

    /// The ticket that the server accepts from a ClientHello.
    fn try_accept_psk(&self, ch: &ClientHello, raw: &[u8]) -> (r: Option<AcceptedPsk>)
        requires
            self.valid(),
            self@.transcript.len() <= MAX_TRANSCRIPT_LEN,
            raw@.len() <= MAX_HANDSHAKE_SIZE,
        ensures
            exists|now: u64|
                (resumes(self@) ==> (self.embedder().tells)(now)) && psk_view(r) == #[trigger] offered_psk(
                    self@,
                    ch@.extensions,
                    raw@,
                    now,
                ),
    {
        let ghost refused = offered_psk(self@, ch@.extensions, raw@, 0);
        if self.hash_alg() != Algorithm::Sha256 {
            return None;
        }
        match &self.config.ticket_keys {
            None => None,
            Some(keys) => {
                let now: u64 = self.now_ms();
                let ghost offered = offered_psk(self@, ch@.extensions, raw@, now);
                let before = if self.hrr_done {
                    Some(&self.transcript)
                } else {
                    None
                };
                accept_psk(keys, now, before, ch, raw)
            },
        }
    }

    /// Whether early data under a ticket is not a replay: there is a guard, the ticket
    /// is fresh at `now`, and the guard did not see its binder before. The guard is
    /// asked, and its answer is the result, only where the rest holds.
    fn check_early_data_replay(&mut self, p: &AcceptedPsk, now: u64) -> (r: bool)
        requires
            old(self).valid(),
        ensures
            final(self).valid(),
            final(self).serves(*old(self)),
            final(self)@ == old(self)@,
            !(old(self)@.has_guard && is_fresh(p@, now)) ==> !r && *final(self) == *old(self),
            old(self)@.has_guard && is_fresh(p@, now) ==> exists|g: &mut G, t: &[u8]|
                {
                    &&& t@ == p@.binder
                    &&& old(self).guard() == Some(*g)
                    &&& final(self).guard() == Some(*final(g))
                    &&& #[trigger] call_ensures(G::register, (g, t), r)
                },
    {
        if !p.fresh(now) {
            return false;
        }
        match &mut self.early_data_guard {
            None => false,
            Some(guard) => {
                let token = p.binder.as_slice();
                guard.register(token)
            },
        }
    }

    /// Whether it comes to the question if a ticket is fresh enough for early data.
    fn asks_early(&self, ch: &ClientHello, psk: &Option<AcceptedPsk>) -> (r: bool)
        ensures
            r == early_asked(self@, ch@.extensions, psk_view(*psk)),
    {
        let p = match psk {
            Some(p) => p,
            None => return false,
        };
        let offered = extension_data(&ch.extensions, ExtensionType::EARLY_DATA).is_some();
        let none: Vec<u8> = Vec::new();
        assert(none@ =~= Seq::<u8>::empty());
        let selected: &[u8] = match &self.selected_alpn {
            Some(a) => a.as_slice(),
            None => none.as_slice(),
        };
        let same_protocol = bytes_eq(selected, p.alpn.as_slice());
        let same_suite = match self.negotiated_suite {
            Some(s) => s.to_u16() == p.suite,
            None => false,
        };
        self.config.accept_early_data && offered && same_protocol && same_suite
    }

    /// Whether the early data that a client sends is taken at `now`, where the guard
    /// calls its binder new as `registered` says.
    pub fn takes_early_data(&self, ch: &ClientHello, psk: &Option<AcceptedPsk>, now: u64, registered: bool) -> (r:
        bool)
        ensures
            r == (early_eligible(self@, ch@.extensions, psk_view(*psk), now) && registered),
    {
        if !self.asks_early(ch, psk) || self.early_data_guard.is_none() {
            return false;
        }
        match psk {
            Some(p) => p.fresh(now) && registered,
            None => false,
        }
    }

    /// Whether the early data that a client sends is taken.
    fn accept_early(&mut self, ch: &ClientHello, psk: &Option<AcceptedPsk>) -> (r: bool)
        requires
            old(self).valid(),
        ensures
            final(self).valid(),
            final(self).serves(*old(self)),
            final(self)@ == old(self)@,
            exists|now: u64, registered: bool|
                #![trigger early_taken(old(self)@, ch@.extensions, psk_view(*psk), now, registered)]
                {
                    let p = psk_view(*psk);
                    &&& early_asked(old(self)@, ch@.extensions, p) ==> (old(self).embedder().tells)(now)
                    &&& r == early_taken(old(self)@, ch@.extensions, p, now, registered)
                    &&& match early_asks(old(self)@, ch@.extensions, p, now, registered) {
                        None => final(self).guard() == old(self).guard(),
                        Some(a) => exists|g: &mut G, t: &[u8]|
                            {
                                &&& t@ == a.token
                                &&& old(self).guard() == Some(*g)
                                &&& final(self).guard() == Some(*final(g))
                                &&& #[trigger] call_ensures(G::register, (g, t), a.fresh)
                            },
                    }
                },
    {
        let ghost v = self@;
        let ghost exts = ch@.extensions;
        let p = match psk {
            Some(p) => p,
            None => {
                assert(!early_taken(v, exts, psk_view(*psk), 0, false));
                return false;
            },
        };
        if !self.asks_early(ch, psk) {
            assert(!early_taken(v, exts, psk_view(*psk), 0, false));
            return false;
        }
        let now: u64 = self.now_ms();
        let registered = self.check_early_data_replay(p, now);
        let ghost taken = early_taken(v, exts, psk_view(*psk), now, registered);
        proof {
            let asks = early_asks(v, exts, psk_view(*psk), now, registered);
            if early_eligible(v, exts, psk_view(*psk), now) {
                if registered {
                    assert(asks->0.fresh);
                } else {
                    assert(!asks->0.fresh);
                }
            } else {
                assert(self.guard() == old(self).guard());
            }
        }
        self.takes_early_data(ch, psk, now, registered)
    }

    /// Reads what the client offers, and decides on its ticket and early data.
    fn settle(&mut self, ch: &ClientHello, raw: &[u8], group: KexGroup) -> (r: Result<Terms, Error>)
        requires
            old(self).valid(),
            old(self)@.transcript.len() <= MAX_TRANSCRIPT_LEN,
            raw@.len() <= MAX_HANDSHAKE_SIZE,
        ensures
            final(self).valid(),
            final(self).serves(*old(self)),
            exists|x: HelloInputs|
                {
                    let terms = settled_terms(r);
                    &&& settle_inputs(old(self).embedder(), final(self)@, ch@.extensions, terms, x)
                    &&& (final(self)@, terms) == #[trigger] settled(old(self)@, ch@, raw@, group, x)
                    &&& match settle_asks(final(self)@, ch@.extensions, terms, x) {
                        None => final(self).guard() == old(self).guard(),
                        Some(a) => exists|g: &mut G, t: &[u8]|
                            {
                                &&& t@ == a.token
                                &&& old(self).guard() == Some(*g)
                                &&& final(self).guard() == Some(*final(g))
                                &&& #[trigger] call_ensures(G::register, (g, t), a.fresh)
                            },
                    }
                },
            r matches Ok(t) ==> t.session_id@ == ch@.legacy_session_id && t.group == group,
            final(self)@.transcript.len() <= old(self)@.transcript.len() + raw@.len(),
    {
        let ghost v = self@;
        let (offers, refused) = Offers::read(
            &self.config.alpn_protocols,
            &self.selected_alpn,
            &ch.extensions,
        );
        self.selected_alpn = copied(&offers.alpn);
        let ghost v1 = ServerView { alpn: offers@.alpn, ..v };
        assert(self@ =~= v1);
        if let Some(e) = refused {
            proof {
                let x = some_inputs(0, 0, false);
                assert((v1, Err::<FlightTerms, Error>(e)) == settled(v, ch@, raw@, group, x));
            }
            return Err(e);
        }
        let psk = self.try_accept_psk(ch, raw);
        let ghost e = self.embedder();
        let ghost now = choose|now: u64|
            (resumes(v1) ==> (e.tells)(now)) && psk_view(psk) == #[trigger] offered_psk(
                v1,
                ch@.extensions,
                raw@,
                now,
            );
        let early = self.accept_early(ch, &psk);
        proof {
            let p = psk_view(psk);
            let (early_now, registered) = choose|now: u64, registered: bool|
                #![trigger early_taken(v1, ch@.extensions, p, now, registered)]
                {
                    &&& early_asked(v1, ch@.extensions, p) ==> (e.tells)(now)
                    &&& early == early_taken(v1, ch@.extensions, p, now, registered)
                    &&& match early_asks(v1, ch@.extensions, p, now, registered) {
                        None => self.guard() == old(self).guard(),
                        Some(a) => exists|g: &mut G, t: &[u8]|
                            {
                                &&& t@ == a.token
                                &&& old(self).guard() == Some(*g)
                                &&& self.guard() == Some(*final(g))
                                &&& #[trigger] call_ensures(G::register, (g, t), a.fresh)
                            },
                    }
                };
            let x = some_inputs(now, early_now, registered);
            let step = settled(v, ch@, raw@, group, x);
            assert(step.0 == v1.grown(raw@));
            assert(step.1->Ok_0.early == early);
            assert(settle_inputs(e, step.0, ch@.extensions, step.1, x));
        }
        self.absorb(raw);
        Ok(
            Terms {
                session_id: to_vec(ch.legacy_session_id.as_slice()),
                group,
                offers,
                psk,
                early,
            },
        )
    }

    /// The keys of early data, where it is taken.
    fn early_keys(&self, t: &Terms) -> (r: Vec<Event>)
        requires
            self.valid(),
            t.early ==> t.psk is Some,
        ensures
            events_view(r@) == early_events(self@, t@),
    {
        let mut events: Vec<Event> = Vec::new();
        if t.early {
            let hash = self.transcript.hash(Algorithm::Sha256).unwrap();
            if let Some(p) = &t.psk {
                proof {
                    lemma_label_lengths();
                }
                let secret = Schedule::client_early_traffic_secret(&p.psk, hash.as_slice()).unwrap();
                events.push(Event::ZeroRttKeysReady { secret: shared(&secret) });
            }
        }
        assert(events_view(events@) =~= early_events(self@, t@));
        events
    }

    /// Answers a ClientHello whose offers are settled.
    #[verifier::rlimit(60)]
    fn send_flight(&mut self, t: Terms, client_share: &[u8]) -> (r: Result<Vec<Event>, Error>)
        requires
            old(self).valid(),
            old(self)@.suite is Some,
            old(self)@.transcript.len() <= MAX_TRANSCRIPT_LEN + MAX_HANDSHAKE_SIZE,
            t.session_id@.len() <= 32,
            t.early ==> t.psk is Some,
        ensures
            final(self).valid(),
            final(self).keeps(*old(self)),
            exists|x: HelloInputs|
                flight_inputs(old(self)@, t@, client_share@, x) && (final(self)@, outcome(r))
                    == #[trigger] flight(old(self)@, t@, x),
    {
        let ghost x0 = some_inputs(0, 0, false);
        let ghost v = self@;
        let ghost tv = t@;
        let mut early = self.early_keys(&t);
        let exchange = t.group.responder(client_share);
        let (share, dhe) = match exchange {
            Ok(e) => e,
            Err(_) => {
                let ghost x = HelloInputs { exchange: None, random: None, signature: None, ..x0 };
                let ghost step = flight(v, tv, x);
                return Err(Error::Kx);
            },
        };
        let ghost pair = (share@, dhe@);
        let random: [u8; RANDOM_LEN] = match random_array() {
            Some(b) => b,
            None => {
                let ghost x = HelloInputs { exchange: Some(pair), random: None, signature: None, ..x0 };
                let ghost step = flight(v, tv, x);
                return Err(Error::Rng);
            },
        };
        let o = match self.open_flight(&t, share.as_slice(), dhe.as_slice(), random) {
            Ok(o) => o,
            Err(e) => {
                let ghost x = HelloInputs {
                    exchange: Some(pair),
                    random: Some(random@),
                    signature: None,
                    ..x0
                };
                let ghost step = flight(v, tv, x);
                return Err(e);
            },
        };
        let sig = if t.psk.is_none() {
            let msg = self.signing_input();
            self.config.source.signing_key().sign(msg.as_slice()).ok()
        } else {
            None
        };
        let ghost x = HelloInputs {
            exchange: Some(pair),
            random: Some(random@),
            signature: bytes_of(sig),
            ..x0
        };
        let ghost step = flight(v, tv, x);
        let closed = self.close_flight(&t, o, sig);
        match closed {
            Err(e) => Err(e),
            Ok(mut rest) => {
                let ghost given = rest@;
                let ghost keys = early@;
                let mut events = t.offers.events;
                let ghost offered = events@;
                events.append(&mut early);
                events.append(&mut rest);
                assert(events_view(events@) =~= events_view(offered) + events_view(keys) + events_view(
                    given,
                ));
                Ok(events)
            },
        }
    }

    /// Answers a ClientHello: with the server's flight, or with a request for another
    /// one.
    pub(crate) fn handle_client_hello(&mut self, ch: ClientHello, raw: &[u8]) -> (r: Result<Vec<Event>, Error>)
        requires
            old(self).valid(),
            old(self)@.transcript.len() <= MAX_TRANSCRIPT_LEN,
            raw@.len() <= MAX_HANDSHAKE_SIZE,
        ensures
            final(self).valid(),
            final(self).serves(*old(self)),
            exists|x: HelloInputs|
                {
                    &&& hello_inputs(old(self).embedder(), old(self)@, ch@, raw@, x)
                    &&& (final(self)@, outcome(r)) == #[trigger] hello_step(old(self)@, ch@, raw@, x)
                    &&& match hello_asks(old(self)@, ch@, raw@, x) {
                        None => final(self).guard() == old(self).guard(),
                        Some(a) => exists|g: &mut G, t: &[u8]|
                            {
                                &&& t@ == a.token
                                &&& old(self).guard() == Some(*g)
                                &&& final(self).guard() == Some(*final(g))
                                &&& #[trigger] call_ensures(G::register, (g, t), a.fresh)
                            },
                    }
                },
    {
        let ghost v = self@;
        let ghost e = self.embedder();
        let ghost none = some_inputs(0, 0, false);
        let ghost early_end = hello_step(v, ch@, raw@, none);
        proof {
            if !(hello_terms(ch@, v.config.source.key().scheme()) matches Ok((_, Some(_)))) || chosen_suite(
                ch@.cipher_suites,
            ) is None {
                lemma_hello_unsettled(e, v, ch@, raw@);
            }
        }
        let suite = match select_suite(ch.cipher_suites.as_slice()) {
            Some(s) => s,
            None => return Err(Error::UnsupportedCipherSuite),
        };
        self.negotiated_suite = Some(suite);
        let ghost v1 = ServerView { suite: Some(suite), ..v };
        assert(self@ =~= v1);
        let scheme: u16 = self.config.source.signing_key().sig_scheme().wire_id();
        let (retry_group, chosen) = match read_terms(&ch, scheme) {
            Ok(t) => t,
            Err(e) => return Err(e),
        };
        let (group, client_share) = match chosen {
            Some(c) => c,
            None => {
                if self.hrr_done {
                    return Err(Error::MissingExtension);
                }
                return self.send_hello_retry_request(
                    raw,
                    ch.legacy_session_id.as_slice(),
                    retry_group,
                );
            },
        };
        assert(hello_goes_on(v, ch@, suite, group, client_share@));
        self.go_on(ch, raw, group, client_share, Ghost(v))
    }

    /// Answers a ClientHello of which suite and group are chosen.
    fn go_on(
        &mut self,
        ch: ClientHello,
        raw: &[u8],
        group: KexGroup,
        client_share: Vec<u8>,
        Ghost(v): Ghost<ServerView>,
    ) -> (r: Result<Vec<Event>, Error>)
        requires
            old(self).valid(),
            old(self)@.suite is Some,
            old(self)@ == (ServerView { suite: old(self)@.suite, ..v }),
            hello_goes_on(v, ch@, old(self)@.suite->0, group, client_share@),
            old(self)@.transcript.len() <= MAX_TRANSCRIPT_LEN,
            raw@.len() <= MAX_HANDSHAKE_SIZE,
        ensures
            final(self).valid(),
            final(self).serves(*old(self)),
            exists|x: HelloInputs|
                {
                    &&& hello_inputs(old(self).embedder(), v, ch@, raw@, x)
                    &&& (final(self)@, outcome(r)) == #[trigger] hello_step(v, ch@, raw@, x)
                    &&& match hello_asks(v, ch@, raw@, x) {
                        None => final(self).guard() == old(self).guard(),
                        Some(a) => exists|g: &mut G, t: &[u8]|
                            {
                                &&& t@ == a.token
                                &&& old(self).guard() == Some(*g)
                                &&& final(self).guard() == Some(*final(g))
                                &&& #[trigger] call_ensures(G::register, (g, t), a.fresh)
                            },
                    }
                },
    {
        let ghost e = self.embedder();
        let ghost v1 = self@;
        assert(v1 == (ServerView { suite: Some(v1.suite->0), ..v }));
        let ghost hello = ch@;
        let settlement = self.settle(&ch, raw, group);
        let ghost x0 = choose|x: HelloInputs|
            {
                let terms = settled_terms(settlement);
                &&& settle_inputs(e, self@, ch@.extensions, terms, x)
                &&& (self@, terms) == #[trigger] settled(v1, ch@, raw@, group, x)
                &&& match settle_asks(self@, ch@.extensions, terms, x) {
                    None => self.guard() == old(self).guard(),
                    Some(a) => exists|g: &mut G, t: &[u8]|
                        {
                            &&& t@ == a.token
                            &&& old(self).guard() == Some(*g)
                            &&& self.guard() == Some(*final(g))
                            &&& #[trigger] call_ensures(G::register, (g, t), a.fresh)
                        },
                }
            };
        let ghost v2 = self@;
        let t = match settlement {
            Ok(t) => t,
            Err(refusal) => {
                proof {
                    lemma_hello_refused(e, v, hello, raw@, v1.suite->0, group, client_share@, x0);
                }
                return Err(refusal);
            },
        };
        let ghost terms = t@;
        let r = self.send_flight(t, client_share.as_slice());
        proof {
            let sent = choose|x: HelloInputs|
                flight_inputs(v2, terms, client_share@, x) && (self@, outcome(r)) == #[trigger] flight(
                    v2,
                    terms,
                    x,
                );
            lemma_hello_answered(e, v, hello, raw@, v1.suite->0, group, client_share@, x0, sent);
        }
        r
    }
}

/// Whether a ClientHello has a suite and a share that the server goes on with.
pub open spec fn hello_goes_on(
    v: ServerView,
    ch: ClientHelloView,
    suite: CipherSuite,
    group: KexGroup,
    client_share: Seq<u8>,
) -> bool {
    &&& chosen_suite(ch.cipher_suites) == Some(suite)
    &&& hello_terms(ch, v.config.source.key().scheme()) matches Ok((_, Some(c))) && c == (group, client_share)
}

/// What comes from outside, of which the times and the guard's answer came before the
/// rest.
pub open spec fn joined_inputs(early: HelloInputs, late: HelloInputs) -> HelloInputs {
    HelloInputs { now: early.now, early_now: early.early_now, registered: early.registered, ..late }
}

proof fn lemma_hello_unsettled(e: Embedder, v: ServerView, ch: ClientHelloView, raw: Seq<u8>)
    requires
        !(hello_terms(ch, v.config.source.key().scheme()) matches Ok((_, Some(_)))) || chosen_suite(
            ch.cipher_suites,
        ) is None,
    ensures
        hello_inputs(e, v, ch, raw, some_inputs(0, 0, false)),
        hello_asks(v, ch, raw, some_inputs(0, 0, false)) is None,
{
    reveal(hello_inputs);
}

proof fn lemma_hello_refused(
    e: Embedder,
    v: ServerView,
    ch: ClientHelloView,
    raw: Seq<u8>,
    suite: CipherSuite,
    group: KexGroup,
    client_share: Seq<u8>,
    x0: HelloInputs,
)
    requires
        hello_goes_on(v, ch, suite, group, client_share),
        settled(ServerView { suite: Some(suite), ..v }, ch, raw, group, x0).1 is Err,
    ensures
        ({
            let x = joined_inputs(x0, some_inputs(0, 0, false));
            let (v2, terms) = settled(ServerView { suite: Some(suite), ..v }, ch, raw, group, x0);
            &&& hello_inputs(e, v, ch, raw, x)
            &&& hello_asks(v, ch, raw, x) is None
            &&& hello_step(v, ch, raw, x) == (v2, Err::<Seq<EventView>, Error>(terms->Err_0))
        }),
{
    reveal(hello_inputs);
}

proof fn lemma_hello_answered(
    e: Embedder,
    v: ServerView,
    ch: ClientHelloView,
    raw: Seq<u8>,
    suite: CipherSuite,
    group: KexGroup,
    client_share: Seq<u8>,
    x0: HelloInputs,
    sent: HelloInputs,
)
    requires
        hello_goes_on(v, ch, suite, group, client_share),
        ({
            let (v2, terms) = settled(ServerView { suite: Some(suite), ..v }, ch, raw, group, x0);
            &&& terms is Ok
            &&& settle_inputs(e, v2, ch.extensions, terms, x0)
            &&& flight_inputs(v2, terms->Ok_0, client_share, sent)
        }),
    ensures
        ({
            let x = joined_inputs(x0, sent);
            let (v2, terms) = settled(ServerView { suite: Some(suite), ..v }, ch, raw, group, x0);
            &&& hello_inputs(e, v, ch, raw, x)
            &&& hello_asks(v, ch, raw, x) == settle_asks(v2, ch.extensions, terms, x0)
            &&& hello_step(v, ch, raw, x) == flight(v2, terms->Ok_0, sent)
        }),
{
    reveal(hello_inputs);
    let x = joined_inputs(x0, sent);
    let v1 = ServerView { suite: Some(suite), ..v };
    let (v2, terms) = settled(v1, ch, raw, group, x0);
    assert(settled(v1, ch, raw, group, x) == (v2, terms));
    assert(flight(v2, terms->Ok_0, x) == flight(v2, terms->Ok_0, sent));
    assert(signs_opening(v2, terms->Ok_0, x) == signs_opening(v2, terms->Ok_0, sent));
}

/// What is known of what comes from outside while the flight is sent.
pub open spec fn flight_inputs(v: ServerView, t: FlightTerms, client_share: Seq<u8>, x: HelloInputs) -> bool {
    &&& x.random matches Some(r) ==> r.len() == 32
    &&& x.exchange is Some ==> answers_share(
        t.group,
        client_share,
        (x.exchange->0).0,
        (x.exchange->0).1,
    )
    &&& x.exchange is Some && x.random is Some ==> signs_opening(v, t, x)
}

/// Whether early data is taken, where the guard's answer is `registered`.
pub open spec fn early_taken(
    v: ServerView,
    exts: Seq<ExtensionView>,
    psk: Option<AcceptedPskView>,
    now: u64,
    registered: bool,
) -> bool {
    early_eligible(v, exts, psk, now) && registered
}

/// The token that the guard is asked about on early data, where it is asked, and its
/// answer.
pub open spec fn early_asks(
    v: ServerView,
    exts: Seq<ExtensionView>,
    psk: Option<AcceptedPskView>,
    now: u64,
    registered: bool,
) -> Option<Asked> {
    if early_eligible(v, exts, psk, now) {
        Some(Asked { token: psk->0.binder, fresh: registered })
    } else {
        None
    }
}

/// What comes from outside before the key exchange.
pub open spec fn some_inputs(now: u64, early_now: u64, registered: bool) -> HelloInputs {
    HelloInputs { now, early_now, registered, exchange: None, random: None, signature: None }
}

/// What a result says.
pub open spec fn settled_terms(r: Result<Terms, Error>) -> Result<FlightTerms, Error> {
    match r {
        Ok(t) => Ok(t@),
        Err(e) => Err(e),
    }
}

} // verus!
