//! What a server does with the messages that follow its flight.

use vstd::prelude::*;

use crate::codec::{to_vec, Reader};
use crate::crypto::hash::{hash_len, Algorithm, Digest, Secret};
use crate::crypto::kdf::{label_bytes, lemma_derives, lemma_label_lengths, next_traffic_secret, Hkdf};
use crate::crypto::material::{ct_eq, FinishedVerifyData, ResumptionPsk, TrafficSecret};
use crate::crypto::rng::random_array;
use crate::crypto::schedule::{ResumptionMaster, Schedule};
use crate::events_view;
use crate::handshake::{
    Certificate, CertificateEntryView, CertificateVerify, Finished, KeyUpdate, MAX_HANDSHAKE_SIZE,
    MAX_KEY_UPDATES_WITHOUT_APP_DATA,
};
use crate::peer::{raw_public_key_leaf, x509_leaf_key};
use crate::proto::{CertVerify, Finished as FinishedProto, SignatureAlgorithms, CERT_TYPE_RAW_PUBLIC_KEY};
use crate::psk::byte_strings;
use crate::server::flight::{encode_key_update, encode_session_ticket};
use crate::server::machine::{
    awaiting_finished, certificate_step, certificate_verify_step, counted, end_of_early_data_step,
    finished_step, key_update_step, possession_verdict, session_psk, send_key_update_step,
    ticket_inputs, ticket_step, verdict_inputs, Outcome, ServerView, TicketInputs, MAX_FLIGHT_LEN, MAX_TRANSCRIPT_LEN,
};
use crate::server::{
    ClientAuth, ClientCertVerifier, ClientIdentity, EarlyDataGuard, Server, State,
};
use crate::{Clock, Epoch, Error, Event, EventView, KeyDirection};

verus! {

/// What a result says.
pub open spec fn outcome(r: Result<Vec<Event>, Error>) -> Outcome {
    match r {
        Ok(events) => Ok(events_view(events@)),
        Err(e) => Err(e),
    }
}

/// A secret as the embedder gets it.
pub(crate) fn shared(s: &TrafficSecret) -> (r: Digest)
    ensures
        r@ == s@,
{
    Digest::from_slice(s.as_slice())
}

impl<C: Clock, G: EarlyDataGuard, V: ClientCertVerifier> Server<C, G, V> {
    /// Adds a message to the transcript.
    pub(crate) fn absorb(&mut self, msg: &[u8])
        requires
            old(self).valid(),
            old(self)@.transcript.len() + msg@.len() <= MAX_TRANSCRIPT_LEN + MAX_FLIGHT_LEN,
        ensures
            final(self).valid(),
            final(self).keeps(*old(self)),
            final(self)@ == old(self)@.grown(msg@),
    {
        self.transcript.update(msg);
        self.transcript_len = self.transcript_len + msg.len() as u64;
        assert(self@ =~= old(self)@.grown(msg@));
    }

    /// The hash of the transcript.
    pub(crate) fn transcript_hash(&self) -> (r: Digest)
        requires
            self.valid(),
        ensures
            r@ == self@.hash(),
            r@.len() == hash_len(self@.alg()),
    {
        self.transcript.hash(self.hash_alg()).unwrap()
    }

    /// Waits for a Finished message over the transcript so far.
    fn await_finished(&mut self) -> (r: Result<Vec<Event>, Error>)
        requires
            old(self).valid(),
        ensures
            final(self).valid(),
            final(self).keeps(*old(self)),
            (final(self)@, outcome(r)) == awaiting_finished(old(self)@),
    {
        let alg = self.hash_alg();
        let hash = self.transcript_hash();
        match &self.c_hs_traffic {
            None => Err(Error::UnexpectedMessage),
            Some(c_hs) => {
                let data = FinishedProto::verify_data(alg, c_hs.as_slice(), hash.as_slice());
                self.expected_client_finished = Some(
                    FinishedVerifyData::from_secret(Secret::from_slice(data.as_slice())),
                );
                self.state = State::ExpectClientFinished;
                let none: Vec<Event> = Vec::new();
                assert(events_view(none@) =~= Seq::empty());
                assert(self@ =~= awaiting_finished(old(self)@).0);
                Ok(none)
            },
        }
    }

    /// The client's early data ends.
    pub(crate) fn handle_end_of_early_data(&mut self, raw: &[u8]) -> (r: Result<Vec<Event>, Error>)
        requires
            old(self).valid(),
            old(self)@.transcript.len() <= MAX_TRANSCRIPT_LEN,
            raw@.len() <= MAX_HANDSHAKE_SIZE,
        ensures
            final(self).valid(),
            final(self).keeps(*old(self)),
            (final(self)@, outcome(r)) == end_of_early_data_step(old(self)@, raw@),
    {
        if self.c_hs_traffic.is_none() {
            return Err(Error::UnexpectedMessage);
        }
        self.early_data_remaining = None;
        self.absorb(raw);
        self.await_finished()
    }

    /// The secret that follows a traffic secret.
    fn updated(&self, prev: &TrafficSecret) -> (r: TrafficSecret)
        ensures
            r@ == next_traffic_secret(self@.alg(), prev@),
    {
        let next = Hkdf::new(self.hash_alg()).traffic_update(&shared(prev)).unwrap();
        TrafficSecret::from_secret(next)
    }

    /// The client changes its keys; where it asks for that, so does the server.
    pub(crate) fn handle_key_update(&mut self, ku: KeyUpdate) -> (r: Result<Vec<Event>, Error>)
        requires
            old(self).valid(),
        ensures
            final(self).valid(),
            final(self).keeps(*old(self)),
            (final(self)@, outcome(r)) == key_update_step(old(self)@, ku.request_update),
    {
        self.key_updates_since_app_data = self.key_updates_since_app_data.saturating_add(1);
        assert(self@ =~= counted(old(self)@));
        if self.key_updates_since_app_data > MAX_KEY_UPDATES_WITHOUT_APP_DATA {
            return Err(Error::UnexpectedMessage);
        }
        let read = match &self.c_ap_traffic {
            None => return Err(Error::UnexpectedMessage),
            Some(c_ap) => self.updated(c_ap),
        };
        let secret = shared(&read);
        self.c_ap_traffic = Some(read);
        let mut events: Vec<Event> = Vec::new();
        events.push(Event::KeyUpdate { direction: KeyDirection::Read, secret });
        if ku.request_update == 1 {
            let reply = encode_key_update(0);
            let write = match &self.s_ap_traffic {
                None => return Err(Error::UnexpectedMessage),
                Some(s_ap) => self.updated(s_ap),
            };
            let secret = shared(&write);
            self.s_ap_traffic = Some(write);
            events.push(Event::Send { epoch: Epoch::Application, data: reply });
            events.push(Event::KeyUpdate { direction: KeyDirection::Write, secret });
        }
        let ghost (after, out) = key_update_step(old(self)@, ku.request_update);
        assert(self@ =~= after);
        assert(events_view(events@) =~= out->Ok_0);
        Ok(events)
    }

    /// Changes the server's keys and, where wanted, asks the client to change its.
    pub fn send_key_update(&mut self, request_update: bool) -> (r: Result<Vec<Event>, Error>)
        requires
            old(self).valid(),
        ensures
            final(self).valid(),
            final(self).keeps(*old(self)),
            (final(self)@, outcome(r)) == send_key_update_step(old(self)@, request_update),
    {
        if self.state != State::Done {
            return Err(Error::UnexpectedMessage);
        }
        let write = match &self.s_ap_traffic {
            None => return Err(Error::UnexpectedMessage),
            Some(s_ap) => self.updated(s_ap),
        };
        let secret = shared(&write);
        self.s_ap_traffic = Some(write);
        let data = encode_key_update(
            if request_update {
                1
            } else {
                0
            },
        );
        let mut events: Vec<Event> = Vec::new();
        events.push(Event::Send { epoch: Epoch::Application, data });
        events.push(Event::KeyUpdate { direction: KeyDirection::Write, secret });
        let ghost (after, out) = send_key_update_step(old(self)@, request_update);
        assert(self@ =~= after);
        assert(events_view(events@) =~= out->Ok_0);
        Ok(events)
    }

    /// The client's Certificate. Captures the leaf key for the CertificateVerify that
    /// follows; an empty list is an anonymous client (allowed only under
    /// `Requested`).
    pub(crate) fn handle_client_certificate(&mut self, cert: Certificate, raw: &[u8]) -> (r: Result<
        Vec<Event>,
        Error,
    >)
        requires
            old(self).valid(),
            old(self)@.transcript.len() <= MAX_TRANSCRIPT_LEN,
            raw@.len() <= MAX_HANDSHAKE_SIZE,
        ensures
            final(self).valid(),
            final(self).keeps(*old(self)),
            (final(self)@, outcome(r)) == certificate_step(old(self)@, cert@, raw@),
    {
        let ghost list = cert@.certificate_list;
        if cert.certificate_request_context.len() > 0 {
            return Err(Error::IllegalParameter);
        }
        if cert.certificate_list.len() == 0 {
            if self.client_auth == Some(ClientAuth::Required) {
                return Err(Error::ClientCertRequired);
            }
            self.absorb(raw);
            return self.await_finished();
        }
        assert(list[0] == cert.certificate_list@[0]@);
        let leaf = &cert.certificate_list[0].cert_data;
        if self.negotiated_client_cert_type == CERT_TYPE_RAW_PUBLIC_KEY {
            if cert.certificate_list.len() != 1 {
                return Err(Error::BadCertificate);
            }
            let key = raw_public_key_leaf(leaf.as_slice())?;
            self.client_leaf = Some(key);
            self.client_spki_der = to_vec(leaf.as_slice());
            self.client_cert_chain = Vec::new();
            assert(byte_strings(self.client_cert_chain@) =~= Seq::empty());
        } else {
            let (key, spki) = x509_leaf_key(leaf.as_slice())?;
            let chain = certificates(&cert);
            self.client_leaf = Some(key);
            self.client_spki_der = spki;
            self.client_cert_chain = chain;
        }
        self.absorb(raw);
        self.state = State::ExpectClientCertVerify;
        let none: Vec<Event> = Vec::new();
        assert(events_view(none@) =~= Seq::empty());
        assert(self@ =~= certificate_step(old(self)@, cert@, raw@).0);
        Ok(none)
    }

    /// The client's CertificateVerify, where the embedder's verdict is `allowed`.
    fn finish_cert_verify(&mut self, allowed: bool, raw: &[u8]) -> (r: Result<Vec<Event>, Error>)
        requires
            old(self).valid(),
            old(self)@.transcript.len() <= MAX_TRANSCRIPT_LEN,
            raw@.len() <= MAX_HANDSHAKE_SIZE,
        ensures
            final(self).valid(),
            final(self).keeps(*old(self)),
            (final(self)@, outcome(r)) == if allowed {
                awaiting_finished(old(self)@.grown(raw@))
            } else {
                (old(self)@, Err(Error::AccessDenied))
            },
    {
        if !allowed {
            return Err(Error::AccessDenied);
        }
        self.absorb(raw);
        self.await_finished()
    }

    /// Whether the client's CertificateVerify proves possession of the key that it
    /// presented, to a server that asks for such proof.
    pub fn check_possession(&self, cv: &CertificateVerify) -> (r: Result<(), Error>)
        requires
            self.valid(),
        ensures
            r == possession_verdict(self@, cv@),
    {
        if !SignatureAlgorithms::x509_supported(cv.algorithm) {
            return Err(Error::SigSchemeNotOffered);
        }
        let hash = self.transcript_hash();
        match &self.client_leaf {
            None => return Err(Error::BadCertificateVerify),
            Some(leaf) => {
                let msg = CertVerify::message(hash.as_slice(), false);
                leaf.verify(cv.algorithm, msg.as_slice(), cv.signature.as_slice())?;
            },
        }
        if self.client_auth.is_none() {
            return Err(Error::UnexpectedMessage);
        }
        Ok(())
    }

    /// The client's CertificateVerify. Verifies possession of the leaf key, then asks
    /// the embedder to authorize the pinned identity. Only then is the expected
    /// client Finished computed.
    pub(crate) fn handle_client_cert_verify(&mut self, cv: CertificateVerify, raw: &[u8]) -> (r: Result<
        Vec<Event>,
        Error,
    >)
        requires
            old(self).valid(),
            old(self)@.transcript.len() <= MAX_TRANSCRIPT_LEN,
            raw@.len() <= MAX_HANDSHAKE_SIZE,
        ensures
            final(self).valid(),
            final(self).keeps(*old(self)),
            exists|allowed: bool|
                verdict_inputs(old(self).embedder(), old(self)@, cv@, allowed) && (
                final(self)@,
                outcome(r),
                ) == #[trigger] certificate_verify_step(old(self)@, cv@, raw@, allowed),
    {
        match self.check_possession(&cv) {
            Ok(()) => {},
            Err(e) => {
                let ghost step = certificate_verify_step(old(self)@, cv@, raw@, true);
                return Err(e);
            },
        }
        let identity = ClientIdentity {
            cert_type: self.negotiated_client_cert_type,
            spki_der: self.client_spki_der.as_slice(),
            chain_der: self.client_cert_chain.as_slice(),
        };
        let allowed = self.verifier.verify(&identity);
        assert(verdict_inputs(self.embedder(), self@, cv@, allowed)) by {
            assert(call_ensures(V::verify, (&self.verifier, &identity), allowed));
        }
        let ghost step = certificate_verify_step(old(self)@, cv@, raw@, allowed);
        self.finish_cert_verify(allowed, raw)
    }

    /// The key of a ticket with nonce `nonce`.
    fn session_psk(&self, master: &Schedule, nonce: &[u8; 8]) -> (r: ResumptionPsk)
        requires
            self.valid(),
            master@.alg == Algorithm::Sha256,
        ensures
            r@ == session_psk(self@, master@.secret, nonce@),
    {
        let hash = self.transcript.hash(Algorithm::Sha256).unwrap();
        proof {
            reveal(session_psk);
            lemma_label_lengths();
            lemma_derives(Algorithm::Sha256, master@.secret, label_bytes("res master"), hash@);
        }
        let resumption = master.resumption_master_secret(hash.as_slice()).unwrap();
        ResumptionMaster::from_secret(&resumption).psk(nonce).unwrap()
    }

    /// The ticket that the server issues, from what was drawn for it.
    pub fn ticket_events(
        &self,
        now: u64,
        nonce: Option<[u8; 8]>,
        age_add: Option<u32>,
        seal_nonce: Option<[u8; 12]>,
    ) -> (r: Result<Vec<Event>, Error>)
        requires
            self.valid(),
        ensures
            outcome(r) == ticket_step(
                self@,
                TicketInputs {
                    now,
                    nonce: seen_array(nonce),
                    age_add,
                    seal_nonce: seen_array(seal_nonce),
                },
            ),
    {
        let mut events: Vec<Event> = Vec::new();
        assert(events_view(events@) =~= Seq::empty());
        let master = match &self.master {
            Some(m) => m,
            None => return Ok(events),
        };
        let keys = match &self.config.ticket_keys {
            Some(k) => k,
            None => return Ok(events),
        };
        if master.hash_alg() != Algorithm::Sha256 {
            return Ok(events);
        }
        let (nonce, age_add) = match (nonce, age_add) {
            (Some(n), Some(a)) => (n, a),
            _ => return Err(Error::Rng),
        };
        let suite: u16 = match self.negotiated_suite {
            Some(s) => s.to_u16(),
            None => return Err(Error::UnexpectedMessage),
        };
        let psk = self.session_psk(master, &nonce);
        let none: Vec<u8> = Vec::new();
        assert(none@ =~= Seq::<u8>::empty());
        let alpn: &[u8] = match &self.selected_alpn {
            Some(p) => p.as_slice(),
            None => none.as_slice(),
        };
        let seal_nonce = match seal_nonce {
            Some(n) => n,
            None => return Err(Error::Rng),
        };
        let ticket = match keys.seal(psk.as_array(), age_add, now, suite, alpn, seal_nonce) {
            Ok(t) => t,
            Err(_) => return Err(Error::Rng),
        };
        let data = encode_session_ticket(
            age_add,
            &nonce,
            ticket.as_slice(),
            self.config.accept_early_data,
        );
        events.push(Event::Send { epoch: Epoch::Application, data });
        events.push(Event::ResumptionSecret { psk: *psk.as_array() });
        let ghost out = ticket_step(
            self@,
            TicketInputs {
                now,
                nonce: Some(nonce@),
                age_add: Some(age_add),
                seal_nonce: Some(seal_nonce@),
            },
        );
        assert(events_view(events@) =~= out->Ok_0);
        Ok(events)
    }

    /// Issues a ticket, where the server has keys for tickets and the session can be
    /// resumed.
    fn emit_session_ticket(&self) -> (r: Result<Vec<Event>, Error>)
        requires
            self.valid(),
        ensures
            exists|x: TicketInputs|
                ticket_inputs(self.embedder(), self@, x) && outcome(r) == #[trigger] ticket_step(
                    self@,
                    x,
                ),
    {
        let wanted = self.master.is_some() && self.config.ticket_keys.is_some();
        let now: u64 = if wanted {
            self.now_ms()
        } else {
            0
        };
        let nonce: Option<[u8; 8]> = if wanted {
            random_array()
        } else {
            None
        };
        let age_bytes: Option<[u8; 4]> = if wanted {
            random_array()
        } else {
            None
        };
        let age_add: Option<u32> = match age_bytes {
            Some(b) => Reader::new(&b).u32().ok(),
            None => None,
        };
        let seal_nonce: Option<[u8; 12]> = if wanted {
            random_array()
        } else {
            None
        };
        let ghost x = TicketInputs {
            now,
            nonce: seen_array(nonce),
            age_add,
            seal_nonce: seen_array(seal_nonce),
        };
        assert(ticket_inputs(self.embedder(), self@, x));
        self.ticket_events(now, nonce, age_add, seal_nonce)
    }

    /// The client's Finished ends the handshake; a ticket may follow.
    pub(crate) fn handle_client_finished(&mut self, f: Finished, raw: &[u8]) -> (r: Result<Vec<Event>, Error>)
        requires
            old(self).valid(),
            old(self)@.transcript.len() <= MAX_TRANSCRIPT_LEN,
            raw@.len() <= MAX_HANDSHAKE_SIZE,
        ensures
            final(self).valid(),
            final(self).keeps(*old(self)),
            exists|x: TicketInputs|
                (old(self)@.expected_finished == Some(f.verify_data@) ==> ticket_inputs(
                    old(self).embedder(),
                    old(self)@,
                    x,
                )) && (final(self)@, outcome(r)) == #[trigger] finished_step(
                    old(self)@,
                    f.verify_data@,
                    raw@,
                    x,
                ),
    {
        let ghost some = TicketInputs { now: 0, nonce: None, age_add: None, seal_nonce: None };
        let ghost refused = finished_step(old(self)@, f.verify_data@, raw@, some);
        let matching = match &self.expected_client_finished {
            None => return Err(Error::UnexpectedMessage),
            Some(expected) => ct_eq(f.verify_data.as_slice(), expected.as_slice()),
        };
        if !matching {
            return Err(Error::BadFinished);
        }
        self.absorb(raw);
        self.state = State::Done;
        let ghost v1 = ServerView { state: State::Done, ..old(self)@.grown(raw@) };
        assert(self@ =~= v1);
        let issued = self.emit_session_ticket();
        let ghost x = choose|x: TicketInputs|
            ticket_inputs(self.embedder(), v1, x) && outcome(issued) == #[trigger] ticket_step(v1, x);
        let ghost step = finished_step(old(self)@, f.verify_data@, raw@, x);
        match issued {
            Err(e) => Err(e),
            Ok(tickets) => {
                let mut tickets = tickets;
                let ghost given = tickets@;
                let mut events: Vec<Event> = Vec::new();
                events.push(Event::Done);
                events.append(&mut tickets);
                assert(events_view(events@) =~= seq![EventView::Done] + events_view(given));
                Ok(events)
            },
        }
    }
}

/// The bytes of an optional array.
pub open spec fn seen_array<const N: usize>(a: Option<[u8; N]>) -> Option<Seq<u8>> {
    match a {
        Some(b) => Some(b@),
        None => None,
    }
}

/// The certificates that a message presents.
fn certificates(m: &Certificate) -> (r: Vec<Vec<u8>>)
    ensures
        byte_strings(r@) == m@.certificate_list.map_values(|e: CertificateEntryView| e.cert_data),
{
    let mut out: Vec<Vec<u8>> = Vec::new();
    let mut i: usize = 0;
    while i < m.certificate_list.len()
        invariant
            i <= m.certificate_list.len(),
            out.len() == i,
            forall|j: int| 0 <= j < i ==> (#[trigger] out@[j])@ == m.certificate_list@[j].cert_data@,
        decreases m.certificate_list.len() - i,
    {
        out.push(to_vec(m.certificate_list[i].cert_data.as_slice()));
        i = i + 1;
    }
    assert(byte_strings(out@) =~= m@.certificate_list.map_values(
        |e: CertificateEntryView| e.cert_data,
    ));
    out
}

} // verus!
