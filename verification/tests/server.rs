use shin::codec::Reader;
use shin::crypto::hash::{Algorithm, Transcript};
use shin::crypto::kx::{EphemeralKey, KexGroup};
use shin::crypto::schedule::Schedule;
use shin::crypto::sig::SigningKey;
use shin::extension::{Extension, ExtensionType};
use shin::handshake::{
    Certificate, CertificateEntry, CertificateVerify, ClientHello, Finished as FinishedMessage, Handshake,
    KeyUpdate, HELLO_RETRY_REQUEST_RANDOM, MAX_KEY_UPDATES_WITHOUT_APP_DATA,
};
use shin::identity::spki::SubjectPublicKey;
use shin::peer;
use shin::proto::{Alpn, CertType, CertVerify, Finished, KeyShare, SupportedGroups, SupportedVersions};
use shin::psk::{KxModes, Offer, PskIdentity, ResumptionBinder};
use shin::record::CipherSuite;
use shin::server::hello::{choose_client_cert_type, pick_protocol, read_terms, select_group, select_suite};
use shin::server::resumption::AcceptedPsk;
use shin::server::{
    CertSource, ClientAuth, ClientCertVerifier, ClientIdentity, Config, EarlyDataGuard, NoClientAuth,
    NoGuard, Server,
};
use shin::ticket::TicketKeys;
use shin::{Clock, Epoch, Error, Event, KeyDirection};

struct At(u64);

impl Clock for At {
    fn now_ms(&self) -> u64 {
        self.0
    }
}

struct Once(Vec<Vec<u8>>);

impl EarlyDataGuard for Once {
    fn register(&mut self, token: &[u8]) -> bool {
        if self.0.iter().any(|t| t.as_slice() == token) {
            return false;
        }
        self.0.push(token.to_vec());
        true
    }
}

struct Pinned(Vec<u8>);

impl ClientCertVerifier for Pinned {
    fn verify(&self, identity: &ClientIdentity<'_>) -> bool {
        identity.spki_der == self.0.as_slice()
    }
}

fn key(b: u8) -> SigningKey {
    SigningKey::from_seed(&[b; 32]).unwrap()
}

fn config() -> Config {
    Config {
        source: CertSource::RawPublicKey { signing_key: key(1) },
        transport_params: vec![1, 2, 3],
        alpn_protocols: vec![b"h3".to_vec(), b"hq".to_vec()],
        ticket_keys: None,
        accept_early_data: false,
    }
}

fn ext(ty: u16, data: Vec<u8>) -> Extension {
    Extension::new(ty, data)
}

fn base_extensions(group: KexGroup, share: &[u8]) -> Vec<Extension> {
    vec![
        ext(ExtensionType::SUPPORTED_VERSIONS, SupportedVersions::client_encode()),
        ext(ExtensionType::SUPPORTED_GROUPS, SupportedGroups::encode()),
        ext(ExtensionType::SIGNATURE_ALGORITHMS, vec![0, 2, 8, 7]),
        ext(ExtensionType::KEY_SHARE, KeyShare::client_encode(group, share)),
    ]
}

fn hello_with(extensions: Vec<Extension>, suites: Vec<u16>) -> ClientHello {
    ClientHello {
        legacy_version: 0x0303,
        random: [7; 32],
        legacy_session_id: vec![9; 32],
        cipher_suites: suites,
        legacy_compression_methods: vec![0],
        extensions,
    }
}

fn wire(m: Handshake) -> Vec<u8> {
    let mut out = Vec::new();
    m.encode(&mut out);
    out
}

fn messages(blob: &[u8]) -> Vec<(Handshake, Vec<u8>)> {
    let mut out = Vec::new();
    let mut rest = blob;
    while !rest.is_empty() {
        let len = 4 + ((rest[1] as usize) << 16 | (rest[2] as usize) << 8 | rest[3] as usize);
        let mut r = Reader::new(&rest[..len]);
        out.push((Handshake::decode(&mut r).unwrap(), rest[..len].to_vec()));
        rest = &rest[len..];
    }
    out
}

fn sent(events: &[Event], at: Epoch) -> Vec<u8> {
    let mut out = Vec::new();
    for e in events {
        if let Event::Send { epoch, data } = e {
            if *epoch == at {
                out.extend_from_slice(data);
            }
        }
    }
    out
}

/// The client's side, as far as these tests need it.
struct Client {
    alg: Algorithm,
    transcript: Transcript,
    c_hs: Vec<u8>,
    s_ap: Vec<u8>,
    c_ap: Vec<u8>,
    master: Schedule,
    extensions: Vec<Extension>,
    asked: bool,
}

/// Goes through the server's flight: checks its keys, its signature and its Finished.
fn finish_client(
    ephemeral: EphemeralKey,
    before: Transcript,
    hello: &[u8],
    events: &[Event],
    psk: Option<[u8; 32]>,
    server_key: &SigningKey,
) -> Client {
    let sh_bytes = sent(events, Epoch::Plaintext);
    let (sh, _) = messages(&sh_bytes).remove(0);
    let sh = match sh {
        Handshake::ServerHello(sh) => sh,
        _ => panic!("no ServerHello"),
    };
    let suite = CipherSuite::from_u16(sh.cipher_suite).unwrap();
    let alg = suite.hash_alg();
    let share = sh.extensions.iter().find(|e| e.ty == ExtensionType::KEY_SHARE).unwrap();
    let (group, server_share) = KeyShare::server_decode(&share.data).unwrap();
    assert_eq!(group, ephemeral.group().to_u16());
    let dhe = ephemeral.agree(&server_share).unwrap();
    assert_eq!(
        sh.extensions.iter().any(|e| e.ty == ExtensionType::PRE_SHARED_KEY),
        psk.is_some()
    );
    let mut transcript = before;
    transcript.update(hello);
    transcript.update(&sh_bytes);
    let early = match &psk {
        Some(p) => Schedule::new_psk(alg, p),
        None => Schedule::new(alg),
    };
    let handshake = early.into_handshake(dhe.as_slice()).unwrap();
    let h = transcript.hash(alg).unwrap();
    let c_hs = handshake.client_handshake_traffic_secret(h.as_slice()).unwrap();
    let s_hs = handshake.server_handshake_traffic_secret(h.as_slice()).unwrap();
    let mut ready = false;
    for e in events {
        if let Event::KeysReady { epoch: Epoch::Handshake, read_secret, write_secret } = e {
            assert_eq!(read_secret.as_slice(), c_hs.as_slice());
            assert_eq!(write_secret.as_slice(), s_hs.as_slice());
            ready = true;
        }
    }
    assert!(ready);
    let blob = sent(events, Epoch::Handshake);
    let mut leaf = None;
    let mut extensions = Vec::new();
    let mut asked = false;
    let mut finished = false;
    for (m, raw) in messages(&blob) {
        match m {
            Handshake::EncryptedExtensions(ee) => extensions = ee.extensions,
            Handshake::CertificateRequest(_) => asked = true,
            Handshake::Certificate(c) => {
                let data = &c.certificate_list[0].cert_data;
                leaf = Some(match peer::raw_public_key_leaf(data) {
                    Ok(key) => key,
                    Err(_) => peer::x509_leaf_key(data).unwrap().0,
                });
            }
            Handshake::CertificateVerify(cv) => {
                let h = transcript.hash(alg).unwrap();
                let msg = CertVerify::message(h.as_slice(), true);
                let leaf = leaf.as_ref().unwrap();
                assert_eq!(leaf.raw.as_slice(), &server_key.pubkey().unwrap()[..]);
                assert_eq!(leaf.verify(cv.algorithm, &msg, &cv.signature), Ok(()));
            }
            Handshake::Finished(f) => {
                let h = transcript.hash(alg).unwrap();
                let expected = Finished::verify_data(alg, s_hs.as_slice(), h.as_slice());
                assert_eq!(f.verify_data.as_slice(), expected.as_slice());
                finished = true;
            }
            _ => panic!("unexpected message"),
        }
        transcript.update(&raw);
    }
    assert!(finished);
    assert_eq!(leaf.is_some(), psk.is_none());
    let h = transcript.hash(alg).unwrap();
    let master = handshake.into_master().unwrap();
    let c_ap = master.client_application_traffic_secret(h.as_slice()).unwrap();
    let s_ap = master.server_application_traffic_secret(h.as_slice()).unwrap();
    match events.last().unwrap() {
        Event::KeysReady { epoch: Epoch::Application, read_secret, write_secret } => {
            assert_eq!(read_secret.as_slice(), c_ap.as_slice());
            assert_eq!(write_secret.as_slice(), s_ap.as_slice());
        }
        _ => panic!("no application keys"),
    }
    Client {
        alg,
        transcript,
        c_hs: c_hs.as_slice().to_vec(),
        s_ap: s_ap.as_slice().to_vec(),
        c_ap: c_ap.as_slice().to_vec(),
        master,
        extensions,
        asked,
    }
}

impl Client {
    fn send(&mut self, m: Handshake) -> Vec<u8> {
        let raw = wire(m);
        self.transcript.update(&raw);
        raw
    }

    fn finished(&mut self) -> Vec<u8> {
        let h = self.transcript.hash(self.alg).unwrap();
        let data = Finished::verify_data(self.alg, &self.c_hs, h.as_slice());
        self.send(Handshake::Finished(FinishedMessage { verify_data: data.as_slice().to_vec() }))
    }
}

fn simple_hello(group: KexGroup, suites: Vec<u16>) -> (EphemeralKey, Vec<u8>) {
    let ephemeral = EphemeralKey::generate(group).unwrap();
    let exts = base_extensions(group, ephemeral.client_share());
    (ephemeral, wire(Handshake::ClientHello(hello_with(exts, suites))))
}

#[test]
fn a_full_handshake_completes_under_every_suite_and_group() {
    for suite in CipherSuite::SUPPORTED {
        for group in KexGroup::SUPPORTED {
            let mut server = Server::new(config(), At(0)).unwrap();
            assert_eq!(server.negotiated_cipher_suite(), None);
            let (ephemeral, ch) = simple_hello(group, vec![0x1399, suite.to_u16()]);
            let events = server.read(Epoch::Plaintext, &ch).unwrap();
            assert_eq!(server.negotiated_cipher_suite(), Some(suite));
            assert!(!server.is_done());
            let mut client = finish_client(ephemeral, Transcript::new(), &ch, &events, None, &key(1));
            assert!(!client.asked);
            assert!(client.extensions.is_empty());
            let fin = client.finished();
            let events = server.read(Epoch::Handshake, &fin).unwrap();
            assert_eq!(events.len(), 1);
            assert!(matches!(events[0], Event::Done));
            assert!(server.is_done());
        }
    }
}

#[test]
fn a_message_may_come_in_pieces() {
    let mut server = Server::new(config(), At(0)).unwrap();
    let (ephemeral, ch) = simple_hello(KexGroup::X25519, vec![0x1301]);
    for b in &ch[..ch.len() - 1] {
        assert!(server.read(Epoch::Plaintext, &[*b]).unwrap().is_empty());
    }
    let events = server.read(Epoch::Plaintext, &ch[ch.len() - 1..]).unwrap();
    finish_client(ephemeral, Transcript::new(), &ch, &events, None, &key(1));
}

#[test]
fn a_message_may_not_cross_epochs() {
    let mut server = Server::new(config(), At(0)).unwrap();
    let (_, ch) = simple_hello(KexGroup::X25519, vec![0x1301]);
    assert!(server.read(Epoch::Plaintext, &ch[..10]).unwrap().is_empty());
    assert_eq!(server.read(Epoch::Handshake, &ch[10..]).err(), Some(Error::Decode));
}

#[test]
fn only_what_was_offered_is_answered() {
    let mut server = Server::new(config(), At(0)).unwrap();
    let ephemeral = EphemeralKey::generate(KexGroup::X25519).unwrap();
    let mut exts = base_extensions(KexGroup::X25519, ephemeral.client_share());
    exts.push(ext(
        ExtensionType::APPLICATION_LAYER_PROTOCOL_NEGOTIATION,
        Alpn::encode(&[b"hq".to_vec(), b"h3".to_vec()]).unwrap(),
    ));
    exts.push(ext(ExtensionType::SERVER_CERTIFICATE_TYPE, vec![2, 0, 2]));
    exts.push(ext(ExtensionType::CLIENT_CERTIFICATE_TYPE, CertType::encode_list(2)));
    exts.push(ext(ExtensionType::QUIC_TRANSPORT_PARAMETERS, vec![5, 5]));
    let ch = wire(Handshake::ClientHello(hello_with(exts, vec![0x1301])));
    let events = server.read(Epoch::Plaintext, &ch).unwrap();
    match &events[0] {
        Event::PeerExtension { ty, data } => {
            assert_eq!((*ty, data.as_slice()), (57, &[5u8, 5][..]));
        }
        _ => panic!("transport parameters not handed on"),
    }
    assert_eq!(server.selected_alpn(), Some(&b"h3"[..]));
    let client = finish_client(ephemeral, Transcript::new(), &ch, &events, None, &key(1));
    let answered: Vec<(u16, Vec<u8>)> =
        client.extensions.iter().map(|e| (e.ty, e.data.clone())).collect();
    assert_eq!(
        answered,
        vec![
            (ExtensionType::SERVER_CERTIFICATE_TYPE, vec![2]),
            (ExtensionType::CLIENT_CERTIFICATE_TYPE, vec![2]),
            (ExtensionType::QUIC_TRANSPORT_PARAMETERS, vec![1, 2, 3]),
            (
                ExtensionType::APPLICATION_LAYER_PROTOCOL_NEGOTIATION,
                vec![0, 3, 2, b'h', b'3']
            ),
        ]
    );
}

fn refusal(change: impl Fn(&mut ClientHello)) -> Error {
    let mut server = Server::new(config(), At(0)).unwrap();
    let ephemeral = EphemeralKey::generate(KexGroup::X25519).unwrap();
    let mut ch = hello_with(
        base_extensions(KexGroup::X25519, ephemeral.client_share()),
        vec![0x1301],
    );
    change(&mut ch);
    match server.read(Epoch::Plaintext, &wire(Handshake::ClientHello(ch))) {
        Ok(_) => panic!("accepted"),
        Err(e) => e,
    }
}

fn set(ch: &mut ClientHello, ty: u16, data: Vec<u8>) {
    for e in ch.extensions.iter_mut() {
        if e.ty == ty {
            e.data = data.clone();
            return;
        }
    }
    ch.extensions.push(Extension::new(ty, data));
}

#[test]
fn hellos_are_refused_for_their_reason() {
    assert_eq!(refusal(|c| c.cipher_suites = vec![0x1399]), Error::UnsupportedCipherSuite);
    assert_eq!(refusal(|c| c.legacy_compression_methods = vec![0, 1]), Error::IllegalParameter);
    assert_eq!(refusal(|c| c.legacy_session_id = vec![0; 33]), Error::Decode);
    for ty in [
        ExtensionType::SUPPORTED_VERSIONS,
        ExtensionType::SUPPORTED_GROUPS,
        ExtensionType::SIGNATURE_ALGORITHMS,
    ] {
        assert_eq!(refusal(|c| c.extensions.retain(|e| e.ty != ty)), Error::MissingExtension);
        assert_eq!(refusal(|c| set(c, ty, vec![1])), Error::Decode);
    }
    assert_eq!(
        refusal(|c| set(c, ExtensionType::SUPPORTED_VERSIONS, vec![2, 3, 3])),
        Error::BadVersion
    );
    assert_eq!(
        refusal(|c| set(c, ExtensionType::SUPPORTED_GROUPS, vec![0, 2, 0xaa, 0xaa])),
        Error::UnsupportedGroup
    );
    assert_eq!(
        refusal(|c| set(c, ExtensionType::SIGNATURE_ALGORITHMS, vec![0, 2, 4, 3])),
        Error::UnsupportedSigScheme
    );
    assert_eq!(refusal(|c| set(c, ExtensionType::KEY_SHARE, vec![0])), Error::Decode);
    assert_eq!(
        refusal(|c| set(c, ExtensionType::KEY_SHARE, vec![0, 5, 0, 0x1d, 0, 1, 7])),
        Error::Kx
    );
    assert_eq!(
        refusal(|c| set(
            c,
            ExtensionType::APPLICATION_LAYER_PROTOCOL_NEGOTIATION,
            vec![0, 3, 2, b'x', b'y']
        )),
        Error::NoApplicationProtocol
    );
    assert_eq!(
        refusal(|c| set(c, ExtensionType::APPLICATION_LAYER_PROTOCOL_NEGOTIATION, vec![0])),
        Error::Decode
    );
    assert_eq!(
        refusal(|c| set(c, ExtensionType::SERVER_CERTIFICATE_TYPE, vec![1, 0])),
        Error::UnexpectedMessage
    );
    assert_eq!(
        refusal(|c| set(c, ExtensionType::SERVER_CERTIFICATE_TYPE, vec![9])),
        Error::Decode
    );
    assert_eq!(
        refusal(|c| set(c, ExtensionType::CLIENT_CERTIFICATE_TYPE, vec![9])),
        Error::Decode
    );
}

#[test]
fn a_client_without_a_share_is_asked_once() {
    let mut server = Server::new(config(), At(0)).unwrap();
    let mut first = hello_with(base_extensions(KexGroup::X25519, &[]), vec![0x1301]);
    set(&mut first, ExtensionType::KEY_SHARE, vec![0, 0]);
    let ch1 = wire(Handshake::ClientHello(first));
    let events = server.read(Epoch::Plaintext, &ch1).unwrap();
    let hrr_bytes = sent(&events, Epoch::Plaintext);
    let hrr = match messages(&hrr_bytes).remove(0).0 {
        Handshake::ServerHello(h) => h,
        _ => panic!("no HelloRetryRequest"),
    };
    assert_eq!(hrr.random, HELLO_RETRY_REQUEST_RANDOM);
    assert_eq!(hrr.legacy_session_id_echo, vec![9; 32]);
    let wanted = hrr.extensions.iter().find(|e| e.ty == ExtensionType::KEY_SHARE).unwrap();
    assert_eq!(KeyShare::hrr_selected_group(&wanted.data), Ok(KexGroup::X25519.to_u16()));

    let mut again = Server::new(config(), At(0)).unwrap();
    assert!(again.read(Epoch::Plaintext, &ch1).is_ok());
    assert_eq!(again.read(Epoch::Plaintext, &ch1).err(), Some(Error::MissingExtension));

    let (ephemeral, ch2) = simple_hello(KexGroup::X25519, vec![0x1301]);
    let events = server.read(Epoch::Plaintext, &ch2).unwrap();
    let digest = Algorithm::Sha256.hash(&ch1);
    let mut before = Transcript::restart_with_message_hash(Algorithm::Sha256, &digest).unwrap();
    before.update(&hrr_bytes);
    let mut client = finish_client(ephemeral, before, &ch2, &events, None, &key(1));
    let fin = client.finished();
    assert!(server.read(Epoch::Handshake, &fin).is_ok());
    assert!(server.is_done());
}

#[test]
fn a_wrong_finished_is_refused() {
    let mut server = Server::new(config(), At(0)).unwrap();
    let (ephemeral, ch) = simple_hello(KexGroup::X25519, vec![0x1301]);
    let events = server.read(Epoch::Plaintext, &ch).unwrap();
    finish_client(ephemeral, Transcript::new(), &ch, &events, None, &key(1));
    let fin = wire(Handshake::Finished(FinishedMessage { verify_data: vec![0; 32] }));
    assert_eq!(server.read(Epoch::Handshake, &fin).err(), Some(Error::BadFinished));
    assert!(!server.is_done());
}

#[test]
fn messages_out_of_place_are_refused() {
    let mut server = Server::new(config(), At(0)).unwrap();
    let fin = wire(Handshake::Finished(FinishedMessage { verify_data: vec![0; 32] }));
    assert_eq!(server.read(Epoch::Handshake, &fin).err(), Some(Error::UnexpectedMessage));
    let (_, ch) = simple_hello(KexGroup::X25519, vec![0x1301]);
    assert_eq!(server.read(Epoch::Handshake, &ch).err(), Some(Error::UnexpectedMessage));
    assert!(server.read(Epoch::Plaintext, &ch).is_ok());
    assert_eq!(server.read(Epoch::Plaintext, &ch).err(), Some(Error::UnexpectedMessage));
    assert_eq!(server.send_key_update(true).err(), Some(Error::UnexpectedMessage));
}

fn connected(config: Config, now: u64) -> (Server<At>, Client, Vec<Event>) {
    let mut server = Server::new(config, At(now)).unwrap();
    let (ephemeral, ch) = simple_hello(KexGroup::X25519, vec![0x1301]);
    let events = server.read(Epoch::Plaintext, &ch).unwrap();
    let mut client = finish_client(ephemeral, Transcript::new(), &ch, &events, None, &key(1));
    let fin = client.finished();
    let events = server.read(Epoch::Handshake, &fin).unwrap();
    (server, client, events)
}

#[test]
fn key_updates_are_answered_and_bounded() {
    let (mut server, client, _) = connected(config(), 0);
    let asked = wire(Handshake::KeyUpdate(KeyUpdate { request_update: 1 }));
    let events = server.read(Epoch::Application, &asked).unwrap();
    assert_eq!(events.len(), 3);
    match &events[0] {
        Event::KeyUpdate { direction, secret } => {
            assert_eq!(*direction, KeyDirection::Read);
            assert_ne!(secret.as_slice(), client.c_ap.as_slice());
        }
        _ => panic!("no read update"),
    }
    assert_eq!(
        sent(&events, Epoch::Application),
        wire(Handshake::KeyUpdate(KeyUpdate { request_update: 0 }))
    );
    match &events[2] {
        Event::KeyUpdate { direction, secret } => {
            assert_eq!(*direction, KeyDirection::Write);
            assert_ne!(secret.as_slice(), client.s_ap.as_slice());
        }
        _ => panic!("no write update"),
    }
    let quiet = wire(Handshake::KeyUpdate(KeyUpdate { request_update: 0 }));
    for _ in 1..MAX_KEY_UPDATES_WITHOUT_APP_DATA {
        assert_eq!(server.read(Epoch::Application, &quiet).unwrap().len(), 1);
    }
    assert_eq!(server.read(Epoch::Application, &quiet).err(), Some(Error::UnexpectedMessage));
    server.note_application_data();
    assert!(server.read(Epoch::Application, &quiet).is_ok());
}

#[test]
fn the_server_updates_its_own_keys() {
    let (mut server, client, _) = connected(config(), 0);
    let events = server.send_key_update(true).unwrap();
    assert_eq!(
        sent(&events, Epoch::Application),
        wire(Handshake::KeyUpdate(KeyUpdate { request_update: 1 }))
    );
    match &events[1] {
        Event::KeyUpdate { direction: KeyDirection::Write, secret } => {
            assert_ne!(secret.as_slice(), client.s_ap.as_slice());
        }
        _ => panic!("no write update"),
    }
}

#[test]
fn keying_material_is_exported_after_the_flight() {
    let mut server = Server::new(config(), At(0)).unwrap();
    let mut out = [0u8; 20];
    assert_eq!(server.export_keying_material("label", b"", &mut out), Err(Error::NotReady));
    let (ephemeral, ch) = simple_hello(KexGroup::X25519, vec![0x1301]);
    let events = server.read(Epoch::Plaintext, &ch).unwrap();
    let client = finish_client(ephemeral, Transcript::new(), &ch, &events, None, &key(1));
    assert_eq!(server.export_keying_material("label", b"ctx", &mut out), Ok(()));
    let h = client.transcript.hash(client.alg).unwrap();
    let em = client.master.exporter_master_secret(h.as_slice()).unwrap();
    let mut expected = [0u8; 20];
    Schedule::export_keying_material(client.alg, em.as_slice(), "label", b"ctx", &mut expected).unwrap();
    assert_eq!(out, expected);
    let long = "x".repeat(300);
    assert_eq!(server.export_keying_material(&long, b"", &mut out), Err(Error::Encode));
}

fn resuming() -> Config {
    Config {
        ticket_keys: Some(TicketKeys::single([42; 32])),
        accept_early_data: true,
        ..config()
    }
}

struct Session {
    ticket: Vec<u8>,
    age_add: u32,
    psk: [u8; 32],
}

fn session(now: u64) -> Session {
    let (_, client, events) = connected(resuming(), now);
    assert_eq!(events.len(), 3);
    assert!(matches!(events[0], Event::Done));
    let nst = match messages(&sent(&events, Epoch::Application)).remove(0).0 {
        Handshake::NewSessionTicket(t) => t,
        _ => panic!("no ticket"),
    };
    assert_eq!(nst.ticket_lifetime, 7200);
    assert_eq!(nst.ticket_nonce.len(), 8);
    assert_eq!(nst.extensions.len(), 1);
    assert_eq!(nst.extensions[0].ty, ExtensionType::EARLY_DATA);
    assert_eq!(nst.extensions[0].data, vec![0, 0, 0x40, 0]);
    let h = client.transcript.hash(client.alg).unwrap();
    let rms = client.master.resumption_master_secret(h.as_slice()).unwrap();
    let expected =
        shin::crypto::schedule::ResumptionMaster::from_secret(&rms).psk(&nst.ticket_nonce).unwrap();
    let psk = match &events[2] {
        Event::ResumptionSecret { psk } => *psk,
        _ => panic!("no resumption secret"),
    };
    assert_eq!(&psk[..], expected.as_slice());
    Session { ticket: nst.ticket, age_add: nst.ticket_age_add, psk }
}

fn resumption_hello(s: &Session, age: u32, early: bool, wrong_binder: bool) -> (EphemeralKey, Vec<u8>) {
    let ephemeral = EphemeralKey::generate(KexGroup::X25519).unwrap();
    let mut exts = base_extensions(KexGroup::X25519, ephemeral.client_share());
    exts.push(ext(ExtensionType::PSK_KEY_EXCHANGE_MODES, KxModes::encode(&[1])));
    if early {
        exts.push(ext(ExtensionType::EARLY_DATA, Vec::new()));
    }
    let offer = Offer::encode(
        &[PskIdentity {
            identity: s.ticket.clone(),
            obfuscated_ticket_age: age.wrapping_add(s.age_add),
        }],
        &[vec![0; 32]],
    );
    exts.push(ext(ExtensionType::PRE_SHARED_KEY, offer));
    let mut ch = wire(Handshake::ClientHello(hello_with(exts, vec![0x1301])));
    let n = ch.len();
    let partial = Algorithm::Sha256.hash(&ch[..n - 35]);
    let mut binder = ResumptionBinder::compute(&s.psk, partial.as_slice());
    if wrong_binder {
        binder[0] ^= 1;
    }
    ch[n - 32..].copy_from_slice(&binder);
    (ephemeral, ch)
}

#[test]
fn a_session_is_resumed() {
    let s = session(1_000_000);
    let mut server = Server::new(resuming(), At(1_005_000)).unwrap();
    let (ephemeral, ch) = resumption_hello(&s, 5_000, false, false);
    let events = server.read(Epoch::Plaintext, &ch).unwrap();
    let mut client = finish_client(ephemeral, Transcript::new(), &ch, &events, Some(s.psk), &key(1));
    let fin = client.finished();
    assert!(server.read(Epoch::Handshake, &fin).is_ok());
    assert!(server.is_done());
}

#[test]
fn a_ticket_is_not_accepted_without_its_key_or_after_its_time() {
    let s = session(1_000_000);
    for (now, wrong) in [(1_005_000, true), (1_000_000 + 7_200_001, false), (0, false)] {
        let mut server = Server::new(resuming(), At(now)).unwrap();
        let (ephemeral, ch) = resumption_hello(&s, 5_000, false, wrong);
        let events = server.read(Epoch::Plaintext, &ch).unwrap();
        finish_client(ephemeral, Transcript::new(), &ch, &events, None, &key(1));
    }
    let other = Config { ticket_keys: Some(TicketKeys::single([43; 32])), ..resuming() };
    let mut server = Server::new(other, At(1_005_000)).unwrap();
    let (ephemeral, ch) = resumption_hello(&s, 5_000, false, false);
    let events = server.read(Epoch::Plaintext, &ch).unwrap();
    finish_client(ephemeral, Transcript::new(), &ch, &events, None, &key(1));
}

#[test]
fn early_data_is_taken_once_and_within_its_limit() {
    let s = session(1_000_000);
    let mut server =
        Server::with_early_data_guard(resuming(), At(1_005_000), Once(Vec::new())).unwrap();
    assert_eq!(server.max_early_data_size(), None);
    assert_eq!(server.note_early_data(1), Err(Error::EarlyDataLimitExceeded));
    let (ephemeral, ch) = resumption_hello(&s, 5_000, true, false);
    let events = server.read(Epoch::Plaintext, &ch).unwrap();
    let h = Algorithm::Sha256.hash(&ch);
    let expected = Schedule::client_early_traffic_secret(&s.psk, h.as_slice()).unwrap();
    match &events[0] {
        Event::ZeroRttKeysReady { secret } => assert_eq!(secret.as_slice(), expected.as_slice()),
        _ => panic!("no early keys"),
    }
    let mut client = finish_client(ephemeral, Transcript::new(), &ch, &events, Some(s.psk), &key(1));
    assert_eq!(client.extensions.len(), 1);
    assert_eq!(client.extensions[0].ty, ExtensionType::EARLY_DATA);
    assert_eq!(server.max_early_data_size(), Some(16384));
    assert_eq!(server.note_early_data(16000), Ok(()));
    assert_eq!(server.note_early_data(384), Ok(()));
    let end = client.send(Handshake::EndOfEarlyData);
    assert!(server.read(Epoch::EarlyData, &end).unwrap().is_empty());
    assert_eq!(server.max_early_data_size(), None);
    let fin = client.finished();
    assert!(server.read(Epoch::Handshake, &fin).is_ok());
    assert!(server.is_done());
}

#[test]
fn early_data_beyond_its_limit_closes_the_window() {
    let s = session(1_000_000);
    let mut server =
        Server::with_early_data_guard(resuming(), At(1_005_000), Once(Vec::new())).unwrap();
    let (_, ch) = resumption_hello(&s, 5_000, true, false);
    assert!(server.read(Epoch::Plaintext, &ch).is_ok());
    assert_eq!(server.note_early_data(16385), Err(Error::EarlyDataLimitExceeded));
    assert_eq!(server.note_early_data(1), Err(Error::EarlyDataLimitExceeded));
}

fn takes_early_data<G: EarlyDataGuard>(
    server: &mut Server<At, G, NoClientAuth>,
    ch: &[u8],
) -> bool {
    let events = server.read(Epoch::Plaintext, ch).unwrap();
    events.iter().any(|e| matches!(e, Event::ZeroRttKeysReady { .. }))
}

#[test]
fn early_data_is_refused_without_a_guard_when_stale_or_replayed() {
    let s = session(1_000_000);
    let (_, ch) = resumption_hello(&s, 5_000, true, false);
    let mut unguarded = Server::new(resuming(), At(1_005_000)).unwrap();
    assert!(!takes_early_data(&mut unguarded, &ch));
    let mut closed =
        Server::with_early_data_guard(resuming(), At(1_005_000), NoGuard).unwrap();
    assert!(!takes_early_data(&mut closed, &ch));
    let mut seen = Once(Vec::new());
    assert!(seen.register(&ch[ch.len() - 32..]));
    let mut replayed = Server::with_early_data_guard(resuming(), At(1_005_000), seen).unwrap();
    assert!(!takes_early_data(&mut replayed, &ch));
    let mut late = Server::with_early_data_guard(resuming(), At(1_020_001), Once(Vec::new())).unwrap();
    assert!(!takes_early_data(&mut late, &ch));
    let off = Config { accept_early_data: false, ..resuming() };
    let mut unwilling = Server::with_early_data_guard(off, At(1_005_000), Once(Vec::new())).unwrap();
    assert!(!takes_early_data(&mut unwilling, &ch));
}

struct Counting<'a> {
    asked: &'a std::cell::RefCell<Vec<Vec<u8>>>,
}

impl EarlyDataGuard for Counting<'_> {
    fn register(&mut self, token: &[u8]) -> bool {
        self.asked.borrow_mut().push(token.to_vec());
        true
    }
}

#[test]
fn the_guard_is_asked_once_and_only_about_early_data() {
    let s = session(1_000_000);
    for (early, now, times) in [(true, 1_005_000, 1), (false, 1_005_000, 0), (true, 1_020_001, 0)] {
        let (_, ch) = resumption_hello(&s, 5_000, early, false);
        let asked = std::cell::RefCell::new(Vec::new());
        let guard = Counting { asked: &asked };
        let mut server = Server::with_early_data_guard(resuming(), At(now), guard).unwrap();
        assert_eq!(takes_early_data(&mut server, &ch), times == 1);
        assert!(server.read(Epoch::Plaintext, &ch).is_err());
        let expected = vec![ch[ch.len() - 32..].to_vec(); times];
        assert_eq!(*asked.borrow(), expected);
    }
}

fn spki(k: &SigningKey) -> Vec<u8> {
    SubjectPublicKey::encoded_ed25519(k.pubkey().unwrap()).to_vec()
}

fn mutual(mode: ClientAuth, pinned: &SigningKey) -> (Server<At, NoGuard, Pinned>, Client) {
    let mut server =
        Server::with_client_auth(config(), At(0), mode, Pinned(spki(pinned))).unwrap();
    let ephemeral = EphemeralKey::generate(KexGroup::X25519).unwrap();
    let mut exts = base_extensions(KexGroup::X25519, ephemeral.client_share());
    exts.push(ext(ExtensionType::CLIENT_CERTIFICATE_TYPE, CertType::encode_list(2)));
    let ch = wire(Handshake::ClientHello(hello_with(exts, vec![0x1301])));
    let events = server.read(Epoch::Plaintext, &ch).unwrap();
    let client = finish_client(ephemeral, Transcript::new(), &ch, &events, None, &key(1));
    assert!(client.asked);
    (server, client)
}

fn certificate(list: Vec<Vec<u8>>) -> Handshake {
    Handshake::Certificate(Certificate {
        certificate_request_context: Vec::new(),
        certificate_list: list
            .into_iter()
            .map(|cert_data| CertificateEntry { cert_data, extensions: Vec::new() })
            .collect(),
    })
}

fn proof_of(client: &Client, k: &SigningKey) -> Handshake {
    let h = client.transcript.hash(client.alg).unwrap();
    let msg = CertVerify::message(h.as_slice(), false);
    Handshake::CertificateVerify(CertificateVerify {
        algorithm: 0x0807,
        signature: k.sign(&msg).unwrap(),
    })
}

#[test]
fn a_client_authenticates() {
    let own = key(5);
    let (mut server, mut client) = mutual(ClientAuth::Required, &own);
    let cert = client.send(certificate(vec![spki(&own)]));
    assert!(server.read(Epoch::Handshake, &cert).unwrap().is_empty());
    let cv = proof_of(&client, &own);
    let cv = client.send(cv);
    assert!(server.read(Epoch::Handshake, &cv).unwrap().is_empty());
    let fin = client.finished();
    assert!(server.read(Epoch::Handshake, &fin).is_ok());
    assert!(server.is_done());
}

fn hex(s: &str) -> Vec<u8> {
    let digits: Vec<u8> = s.bytes().filter(|b| !b.is_ascii_whitespace()).collect();
    digits
        .chunks(2)
        .map(|p| u8::from_str_radix(std::str::from_utf8(p).unwrap(), 16).unwrap())
        .collect()
}

fn server_certificate() -> Vec<u8> {
    hex(
        "3081ce308181a003020102020101300506032b65703011310f300d06035504030c06736572766572
         301e170d3234303130313030303030305a170d3334303130313030303030305a3011310f300d0603
         5504030c06736572766572302a300506032b65700321008a88e3dd7409f195fd52db2d3cba5d72ca
         6709bf1d94121bf3748801b40f6f5c300506032b6570034100f6bff876796e7abba53db67d4d3ff7
         02ea53857a167aba18b38c53b40463c8f6e6af0f69f2f9d7fffb25dfa002fdcf85257c32b5d2b8df
         76ecbd6fd51b01d409",
    )
}

fn client_certificate() -> Vec<u8> {
    hex(
        "3081ce308181a003020102020105300506032b65703011310f300d06035504030c06636c69656e74
         301e170d3234303130313030303030305a170d3334303130313030303030305a3011310f300d0603
         5504030c06636c69656e74302a300506032b65700321006e7a1cdd29b0b78fd13af4c5598feff4ef
         2a97166e3ca6f2e4fbfccd80505bf1300506032b65700341004b4bbd2e962b3f51f0d4e4f0ab39e6
         6f134d07439ef40eb34f1b520e0fbd2a4bf7ce8109153b4a8c3ed4aee8f060d57acc8f23b0e5f29b
         5deacebd33d7dc0306",
    )
}

#[test]
fn both_sides_present_certificates() {
    let own = key(5);
    let source = || CertSource::X509 { chain_der: vec![server_certificate()], signing_key: key(1) };
    assert!(key(1).matches_x509_chain(&[server_certificate()]));
    assert!(!key(2).matches_x509_chain(&[server_certificate()]));
    let mut server = Server::with_early_data_guard_and_client_auth(
        Config { source: source(), ..config() },
        At(0),
        Once(Vec::new()),
        ClientAuth::Required,
        Pinned(spki(&own)),
    )
    .unwrap();
    let (ephemeral, ch) = simple_hello(KexGroup::X25519, vec![0x1301]);
    let events = server.read(Epoch::Plaintext, &ch).unwrap();
    let mut client = finish_client(ephemeral, Transcript::new(), &ch, &events, None, &key(1));
    assert!(client.asked);
    let garbage = wire(certificate(vec![vec![1, 2, 3]]));
    let (ephemeral, ch) = simple_hello(KexGroup::X25519, vec![0x1301]);
    let mut other = Server::with_client_auth(
        Config { source: source(), ..config() },
        At(0),
        ClientAuth::Required,
        Pinned(spki(&own)),
    )
    .unwrap();
    let events = other.read(Epoch::Plaintext, &ch).unwrap();
    finish_client(ephemeral, Transcript::new(), &ch, &events, None, &key(1));
    assert!(other.read(Epoch::Handshake, &garbage).is_err());
    let cert = client.send(certificate(vec![client_certificate()]));
    assert!(server.read(Epoch::Handshake, &cert).unwrap().is_empty());
    let cv = proof_of(&client, &own);
    let cv = client.send(cv);
    assert!(server.read(Epoch::Handshake, &cv).unwrap().is_empty());
    let fin = client.finished();
    assert!(server.read(Epoch::Handshake, &fin).is_ok());
    assert!(server.is_done());
}

#[test]
fn a_client_that_is_not_pinned_is_refused() {
    let own = key(5);
    let (mut server, mut client) = mutual(ClientAuth::Required, &key(6));
    let cert = client.send(certificate(vec![spki(&own)]));
    assert!(server.read(Epoch::Handshake, &cert).is_ok());
    let cv = proof_of(&client, &own);
    let cv = client.send(cv);
    assert_eq!(server.read(Epoch::Handshake, &cv).err(), Some(Error::AccessDenied));
}

#[test]
fn a_client_without_its_key_is_refused() {
    let own = key(5);
    let (mut server, mut client) = mutual(ClientAuth::Required, &own);
    let cert = client.send(certificate(vec![spki(&own)]));
    assert!(server.read(Epoch::Handshake, &cert).is_ok());
    let cv = proof_of(&client, &key(7));
    let cv = client.send(cv);
    assert_eq!(server.read(Epoch::Handshake, &cv).err(), Some(Error::BadCertificateVerify));
    let unoffered = wire(Handshake::CertificateVerify(CertificateVerify {
        algorithm: 0x0401,
        signature: Vec::new(),
    }));
    assert_eq!(server.read(Epoch::Handshake, &unoffered).err(), Some(Error::SigSchemeNotOffered));
}

#[test]
fn an_anonymous_client_is_refused_only_where_a_certificate_is_required() {
    let (mut server, mut client) = mutual(ClientAuth::Required, &key(5));
    let cert = client.send(certificate(Vec::new()));
    assert_eq!(server.read(Epoch::Handshake, &cert).err(), Some(Error::ClientCertRequired));
    let (mut server, mut client) = mutual(ClientAuth::Requested, &key(5));
    let cert = client.send(certificate(Vec::new()));
    assert!(server.read(Epoch::Handshake, &cert).is_ok());
    let fin = client.finished();
    assert!(server.read(Epoch::Handshake, &fin).is_ok());
    assert!(server.is_done());
}

#[test]
fn broken_client_certificates_are_refused() {
    let (mut server, mut client) = mutual(ClientAuth::Required, &key(5));
    let two = client.send(certificate(vec![spki(&key(5)), spki(&key(6))]));
    assert_eq!(server.read(Epoch::Handshake, &two).err(), Some(Error::BadCertificate));
    let bad = client.send(certificate(vec![vec![1, 2, 3]]));
    assert_eq!(server.read(Epoch::Handshake, &bad).err(), Some(Error::Spki));
    let context = wire(Handshake::Certificate(Certificate {
        certificate_request_context: vec![1],
        certificate_list: Vec::new(),
    }));
    assert_eq!(server.read(Epoch::Handshake, &context).err(), Some(Error::IllegalParameter));
}

#[test]
fn a_configuration_that_cannot_be_sent_is_refused() {
    let long = Config { transport_params: vec![0; 65532], ..config() };
    assert_eq!(Server::new(long, At(0)).err(), Some(Error::BadConfig));
    let fitting = Config { transport_params: vec![0; 65531], ..config() };
    assert!(Server::new(fitting, At(0)).is_ok());
    let chain = Config {
        source: CertSource::X509 { chain_der: vec![vec![0; 0xff_ffff]], signing_key: key(1) },
        ..config()
    };
    assert_eq!(chain.validate(), Err(Error::BadConfig));
    let rng = ring::rand::SystemRandom::new();
    let p256 = ring::signature::EcdsaKeyPair::generate_pkcs8(
        &ring::signature::ECDSA_P256_SHA256_ASN1_SIGNING,
        &rng,
    )
    .unwrap();
    let raw = Config {
        source: CertSource::RawPublicKey {
            signing_key: SigningKey::from_ecdsa_p256_pkcs8(p256.as_ref()).unwrap(),
        },
        ..config()
    };
    assert_eq!(raw.validate(), Err(Error::BadConfig));
    assert_eq!(Server::new(raw, At(0)).err(), Some(Error::BadConfig));
}

#[test]
fn a_configuration_that_cannot_authenticate_is_refused() {
    let x509 = |chain_der: Vec<Vec<u8>>, b: u8| Config {
        source: CertSource::X509 { chain_der, signing_key: key(b) },
        ..config()
    };
    let pinned = || Pinned(spki(&key(5)));
    assert_eq!(x509(vec![server_certificate()], 1).validate(), Ok(()));
    assert_eq!(x509(Vec::new(), 1).validate(), Err(Error::BadConfig));
    assert_eq!(Server::new(x509(Vec::new(), 1), At(0)).err(), Some(Error::BadConfig));
    let other_key = x509(vec![server_certificate()], 2);
    assert_eq!(
        Server::with_early_data_guard(other_key, At(0), Once(Vec::new())).err(),
        Some(Error::BadConfig)
    );
    let unreadable = x509(vec![vec![1, 2, 3]], 1);
    assert_eq!(
        Server::with_client_auth(unreadable, At(0), ClientAuth::Required, pinned()).err(),
        Some(Error::BadConfig)
    );
    let unreadable_issuer = x509(vec![server_certificate(), vec![1]], 1);
    assert_eq!(
        Server::with_early_data_guard_and_client_auth(
            unreadable_issuer,
            At(0),
            Once(Vec::new()),
            ClientAuth::Required,
            pinned()
        )
        .err(),
        Some(Error::BadConfig)
    );
}

#[test]
fn answers_that_do_not_fit_are_refused() {
    let long = || Config { transport_params: vec![7; 65531], ..config() };
    let hello = |offers: Vec<Extension>| {
        let ephemeral = EphemeralKey::generate(KexGroup::X25519).unwrap();
        let mut exts = base_extensions(KexGroup::X25519, ephemeral.client_share());
        exts.extend(offers);
        (ephemeral, wire(Handshake::ClientHello(hello_with(exts, vec![0x1301]))))
    };
    let quic = || ext(ExtensionType::QUIC_TRANSPORT_PARAMETERS, vec![1]);
    let mut server = Server::new(long(), At(0)).unwrap();
    let (ephemeral, ch) = hello(vec![quic()]);
    let events = server.read(Epoch::Plaintext, &ch).unwrap();
    let client = finish_client(ephemeral, Transcript::new(), &ch, &events, None, &key(1));
    assert_eq!(client.extensions.len(), 1);
    assert_eq!(client.extensions[0].data.len(), 65531);
    let mut server = Server::new(long(), At(0)).unwrap();
    let (_, ch) = hello(vec![
        quic(),
        ext(ExtensionType::SERVER_CERTIFICATE_TYPE, CertType::encode_list(2)),
    ]);
    assert_eq!(server.read(Epoch::Plaintext, &ch).err(), Some(Error::Encode));
}

#[test]
fn a_closure_is_a_clock() {
    let mut server = Server::new(config(), || 5).unwrap();
    let (_, ch) = simple_hello(KexGroup::X25519, vec![0x1301]);
    let events = server.read(Epoch::Plaintext, &ch).unwrap();
    assert!(events[0] == events[0].clone());
    assert!(events[0] != events[1]);
    assert_eq!((|| 2_500u64).now_secs(), 2);
}

#[test]
fn clocks_count_whole_seconds() {
    assert_eq!(At(1_999).now_secs(), 1);
    assert_eq!(At(2_000).now_secs(), 2);
}

#[test]
fn negotiation_follows_the_servers_order() {
    assert_eq!(select_suite(&[0x1302, 0x1303, 0x1301]), Some(CipherSuite::Aes128GcmSha256));
    assert_eq!(select_suite(&[0x1302, 0x1303]), Some(CipherSuite::ChaCha20Poly1305Sha256));
    assert_eq!(select_suite(&[0x1302]), Some(CipherSuite::Aes256GcmSha384));
    assert_eq!(select_suite(&[]), None);
    assert_eq!(select_group(&[0x11ec, 0x17]), Some(KexGroup::Secp256r1));
    assert_eq!(select_group(&[0x18]), None);
    assert_eq!(
        pick_protocol(&vec![b"a".to_vec(), b"b".to_vec()], &vec![b"b".to_vec(), b"a".to_vec()]),
        Some(b"a".to_vec())
    );
    assert_eq!(pick_protocol(&vec![b"a".to_vec()], &vec![b"c".to_vec()]), None);
    assert_eq!(choose_client_cert_type(&None), 0);
    assert_eq!(choose_client_cert_type(&Some(vec![1, 2, 0])), 2);
    assert_eq!(choose_client_cert_type(&Some(vec![7])), 0);
    let ch = hello_with(base_extensions(KexGroup::X25519, &[3; 32]), vec![0x1301]);
    assert_eq!(
        read_terms(&ch, 0x0807),
        Ok((KexGroup::X25519, Some((KexGroup::X25519, vec![3; 32]))))
    );
}

#[test]
fn freshness_allows_ten_seconds_of_skew() {
    let p = AcceptedPsk {
        psk: [0; 32],
        age_add: 0xffff_fff0,
        issued_at_ms: 1_000_000,
        suite: 0x1301,
        obfuscated_ticket_age: 0xffff_fff0u32.wrapping_add(20_000),
        binder: vec![0; 32],
        alpn: Vec::new(),
    };
    assert!(p.fresh(1_020_000));
    assert!(p.fresh(1_030_000));
    assert!(!p.fresh(1_030_001));
    assert!(p.fresh(1_010_000));
    assert!(!p.fresh(1_009_999));
    assert!(!p.fresh(999_999));
}
