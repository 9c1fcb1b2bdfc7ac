use shin::alert::{Alert, AlertDescription, AlertLevel};
use shin::codec::{
    put_u16, put_u32, put_u64, put_vec_u24, try_put_vec_u16, try_put_vec_u8, DecodeError, EncodeError,
    Reader,
};
use shin::extension::{Extension, ExtensionType};
use shin::handshake::reassemblers::{HsReassembler, KeyUpdateBudget};
use shin::handshake::{
    Certificate, CertificateEntry, CertificateRequest, CertificateVerify, ClientHello,
    EncryptedExtensions, Finished, Handshake, HandshakeType, KeyUpdate, NewSessionTicket, ServerHello,
    MAX_CERTIFICATE_ENTRIES, MAX_KEY_UPDATES_PER_RECORD,
};
use shin::identity::chain::Error as ChainError;
use shin::psk::{KxModes, Offer, PskIdentity, ResumptionBinder, SelectedIdentity};
use shin::{Epoch, Error};

fn wire(m: &Handshake) -> Vec<u8> {
    let mut out = Vec::new();
    m.encode(&mut out);
    out
}

fn every_message() -> Vec<Handshake> {
    let exts = vec![Extension::new(ExtensionType::KEY_SHARE, vec![1, 2, 3])];
    vec![
        Handshake::ClientHello(ClientHello {
            legacy_version: 0x0303,
            random: [1; 32],
            legacy_session_id: vec![2; 5],
            cipher_suites: vec![0x1301, 0x1302],
            legacy_compression_methods: vec![0],
            extensions: exts.clone(),
        }),
        Handshake::ServerHello(ServerHello {
            legacy_version: 0x0303,
            random: [1; 32],
            legacy_session_id_echo: vec![],
            cipher_suite: 0x1301,
            legacy_compression_method: 0,
            extensions: exts.clone(),
        }),
        Handshake::EndOfEarlyData,
        Handshake::EncryptedExtensions(EncryptedExtensions { extensions: exts.clone() }),
        Handshake::CertificateRequest(CertificateRequest {
            certificate_request_context: vec![4],
            extensions: exts.clone(),
        }),
        Handshake::Certificate(Certificate {
            certificate_request_context: vec![],
            certificate_list: vec![CertificateEntry { cert_data: vec![9; 300], extensions: exts.clone() }],
        }),
        Handshake::CertificateVerify(CertificateVerify { algorithm: 0x0807, signature: vec![5; 64] }),
        Handshake::Finished(Finished { verify_data: vec![6; 32] }),
        Handshake::KeyUpdate(KeyUpdate { request_update: 1 }),
        Handshake::NewSessionTicket(NewSessionTicket {
            ticket_lifetime: 7200,
            ticket_age_add: 1,
            ticket_nonce: vec![0; 8],
            ticket: vec![3; 77],
            extensions: exts,
        }),
    ]
}

#[test]
fn every_message_round_trips() {
    for m in every_message() {
        let bytes = wire(&m);
        assert_eq!(bytes[0], m.msg_type().to_u8());
        let mut r = Reader::new(&bytes);
        let back = Handshake::decode(&mut r).unwrap();
        assert!(r.is_empty());
        assert_eq!(wire(&back), bytes);
        for cut in 0..bytes.len() {
            assert!(Handshake::decode(&mut Reader::new(&bytes[..cut])).is_err());
        }
    }
}

#[test]
fn finished_bytes() {
    let m = Handshake::Finished(Finished { verify_data: vec![1, 2] });
    assert_eq!(wire(&m), vec![20, 0, 0, 2, 1, 2]);
    assert_eq!(HandshakeType::from_u8(20), Ok(HandshakeType::Finished));
    assert_eq!(HandshakeType::from_u8(99), Err(DecodeError::InvalidEnum));
}

#[test]
fn limits_of_messages() {
    let entry = CertificateEntry { cert_data: vec![1], extensions: vec![] };
    let many = Handshake::Certificate(Certificate {
        certificate_request_context: vec![],
        certificate_list: vec![entry; MAX_CERTIFICATE_ENTRIES + 1],
    });
    assert_eq!(
        Handshake::decode(&mut Reader::new(&wire(&many))).err(),
        Some(DecodeError::TooManyCertificates)
    );
    assert_eq!(
        Handshake::decode(&mut Reader::new(&[24, 0, 0, 1, 2])).err(),
        Some(DecodeError::InvalidEnum)
    );
}

#[test]
fn a_reassembler_puts_messages_together() {
    let bytes: Vec<u8> = every_message().iter().flat_map(wire).collect();
    let mut r = HsReassembler::new();
    let mut seen = Vec::new();
    for chunk in bytes.chunks(7) {
        assert_eq!(r.push(Epoch::Handshake, chunk), Ok(()));
        while let Some((m, raw)) = r.next_message().unwrap() {
            assert_eq!(wire(&m), raw);
            seen.extend_from_slice(&raw);
        }
    }
    assert_eq!(seen, bytes);
}

#[test]
fn how_records_are_cut_does_not_matter() {
    let mut bytes: Vec<u8> = every_message().iter().flat_map(wire).collect();
    let complete = bytes.len();
    bytes.extend_from_slice(&[20, 0, 0, 32, 1, 2, 3]);
    let drain = |pieces: Vec<&[u8]>| {
        let mut r = HsReassembler::new();
        let mut raws = Vec::new();
        for piece in pieces {
            assert_eq!(r.push(Epoch::Handshake, piece), Ok(()));
            while let Some((_, raw)) = r.next_message().unwrap() {
                raws.push(raw);
            }
        }
        raws
    };
    let whole = drain(vec![&bytes]);
    assert_eq!(whole.concat(), bytes[..complete].to_vec());
    for size in [1, 3, 64, 1000] {
        assert_eq!(drain(bytes.chunks(size).collect()), whole);
    }
}

#[test]
fn a_reassembler_has_limits() {
    let mut r = HsReassembler::new();
    assert_eq!(r.push(Epoch::Handshake, &[1, 0, 0]), Ok(()));
    assert_eq!(r.push(Epoch::Application, &[0]), Err(DecodeError::HandshakeSpansEpoch));
    let mut r = HsReassembler::new();
    assert_eq!(r.push(Epoch::Handshake, &[1, 4, 0, 0]), Ok(()));
    assert_eq!(r.next_message().err(), Some(Error::Decode));
    let mut r = HsReassembler::new();
    let update = wire(&Handshake::KeyUpdate(KeyUpdate { request_update: 0 }));
    let flood = update.repeat(MAX_KEY_UPDATES_PER_RECORD as usize + 1);
    assert_eq!(r.push(Epoch::Application, &flood), Ok(()));
    for _ in 0..MAX_KEY_UPDATES_PER_RECORD {
        assert!(r.next_message().unwrap().is_some());
    }
    assert_eq!(r.next_message().err(), Some(Error::UnexpectedMessage));
    let mut b = KeyUpdateBudget::<2>::default();
    assert!(b.consume() && b.consume() && !b.consume());
    b.reset();
    assert!(b.consume());
}

#[test]
fn integers_and_vectors_on_the_wire() {
    let mut out = Vec::new();
    put_u16(&mut out, 0x0102);
    put_u32(&mut out, 0x0304_0506);
    put_u64(&mut out, 7);
    put_vec_u24(&mut out, &[9]);
    assert_eq!(out, vec![1, 2, 3, 4, 5, 6, 0, 0, 0, 0, 0, 0, 0, 7, 0, 0, 1, 9]);
    let mut small = Vec::new();
    assert_eq!(try_put_vec_u8(&mut small, &[0; 256]), Err(EncodeError::Overflow));
    assert_eq!(try_put_vec_u16(&mut small, &vec![0; 65536]), Err(EncodeError::Overflow));
    assert!(small.is_empty());
    let mut r = Reader::new(&[1, 2, 3]);
    assert_eq!(r.u16(), Ok(0x0102));
    assert_eq!(r.u16(), Err(DecodeError::UnexpectedEnd));
    assert_eq!(r.finish(), Err(DecodeError::Trailing));
    assert_eq!(r.u8(), Ok(3));
    assert_eq!(r.finish(), Ok(()));
}

#[test]
fn ticket_offers_round_trip() {
    let ids = [PskIdentity { identity: vec![1, 2], obfuscated_ticket_age: 0x0a0b_0c0d }];
    let body = Offer::encode(&ids, &[vec![7; 32]]);
    assert_eq!(&body[..10], &[0, 8, 0, 2, 1, 2, 0x0a, 0x0b, 0x0c, 0x0d][..]);
    let (i, b) = Offer::decode(&body).unwrap();
    assert_eq!(i, ids.to_vec());
    assert_eq!(b, vec![vec![7; 32]]);
    assert_eq!(Offer::encode(&i, &b), body);
    assert_eq!(
        Offer::decode(&Offer::encode(&ids, &[vec![7; 32], vec![8; 32]])).err(),
        Some(DecodeError::Trailing)
    );
    assert_eq!(Offer::decode(&body[..9]).err(), Some(DecodeError::UnexpectedEnd));
    assert_eq!(Offer::decode(&[0, 0, 0, 2, 1, 7]).err(), Some(DecodeError::Trailing));
    assert_eq!(KxModes::encode(&[1]), vec![1, 1]);
    assert_eq!(KxModes::decode(&[1, 1]), Ok(vec![1]));
    assert_eq!(SelectedIdentity::encode(3), vec![0, 3]);
    assert_eq!(SelectedIdentity::decode(&[0, 3]), Ok(3));
    assert_ne!(
        ResumptionBinder::compute(&[1; 32], &[0; 32]),
        ResumptionBinder::compute(&[2; 32], &[0; 32])
    );
}

#[test]
fn errors_say_what_to_tell_the_peer() {
    let told = |e: Error| e.alert().description;
    assert_eq!(told(Error::Decode), AlertDescription::DecodeError);
    assert_eq!(told(Error::EarlyDataLimitExceeded), AlertDescription::UnexpectedMessage);
    assert_eq!(told(Error::BadFinished), AlertDescription::DecryptError);
    assert_eq!(told(Error::AccessDenied), AlertDescription::AccessDenied);
    assert_eq!(
        told(Error::BadCertificateChain(ChainError::Expired)),
        AlertDescription::CertificateExpired
    );
    assert_eq!(
        told(Error::BadCertificateChain(ChainError::NoTrustAnchor)),
        AlertDescription::UnknownCa
    );
    assert_eq!(
        told(Error::BadCertificateChain(ChainError::PathLenExceeded)),
        AlertDescription::BadCertificate
    );
    assert_eq!(Error::Kx.alert().encode(), vec![2, 47]);
    assert_eq!(
        Alert { level: AlertLevel::Warning, description: AlertDescription::CloseNotify }.encode(),
        vec![1, 0]
    );
    assert_eq!(Error::from(DecodeError::Trailing), Error::Decode);
}

#[test]
fn logs_hold_no_secret() {
    let a = shin::Event::ResumptionSecret { psk: [1; 32] };
    let b = shin::Event::ResumptionSecret { psk: [2; 32] };
    assert_eq!(a.loggable(), b.loggable());
    let sent = shin::Event::Send { epoch: Epoch::Handshake, data: vec![1, 2, 3] };
    assert_eq!(
        sent.loggable(),
        shin::Loggable::Send { epoch: Epoch::Handshake, data_len: 3 }
    );
}
