use shin::crypto::aead::AeadError;
use shin::crypto::kdf::HkdfError;
use shin::record::{
    CipherSuite, ContentType, Opener, PlaintextRecord, RecordError, RecordKeyError, Sealer, AEAD_TAG_LEN, HEADER_LEN,
    MAX_PLAINTEXT_BODY,
};

#[test]
fn plaintext_records_round_trip() {
    let wire = PlaintextRecord::encode(ContentType::Alert, &[1, 2]).unwrap();
    assert_eq!(wire, vec![21, 3, 3, 0, 2, 1, 2]);
    let (r, n) = PlaintextRecord::parse(&wire).unwrap().unwrap();
    assert_eq!((r.content_type, r.body, n), (ContentType::Alert, &[1u8, 2][..], 7));
    assert!(PlaintextRecord::parse(&wire[..6]).unwrap().is_none());
    assert!(PlaintextRecord::parse(&wire[..4]).unwrap().is_none());
    assert_eq!(
        PlaintextRecord::parse(&[99, 3, 3, 0, 0]).err(),
        Some(RecordError::BadContentType)
    );
    assert_eq!(
        PlaintextRecord::parse(&[22, 3, 3, 0x40, 1]).err(),
        Some(RecordError::BodyTooLarge)
    );
    assert_eq!(
        PlaintextRecord::encode(ContentType::Handshake, &vec![0; MAX_PLAINTEXT_BODY + 1]).err(),
        Some(RecordError::BodyTooLarge)
    );
}

#[test]
fn plaintext_records_go_into_a_slice() {
    let mut wire = [0u8; 32];
    let n = PlaintextRecord::encode_into_slice(ContentType::Alert, &[1, 2], &mut wire).unwrap();
    assert_eq!(n, HEADER_LEN + 2);
    let mut short = [0u8; 6];
    assert_eq!(
        PlaintextRecord::encode_into_slice(ContentType::Alert, &[1, 2], &mut short),
        Err(RecordError::BufferTooSmall)
    );
}

#[test]
fn sealed_records_open_under_the_same_secret() {
    for suite in CipherSuite::SUPPORTED {
        let secret = vec![7u8; suite.hash_alg().output_len()];
        let mut sealer = Sealer::with_suite(&secret, suite).unwrap();
        let mut opener = Opener::with_suite(&secret, suite).unwrap();
        for i in 0..3u8 {
            let mut wire = sealer.seal(ContentType::Handshake, &[i, i, i]).unwrap();
            assert_eq!(wire.len(), HEADER_LEN + 3 + 1 + AEAD_TAG_LEN);
            assert_eq!(&wire[..3], &[23, 3, 3][..]);
            let (ty, range, n) = opener.open(&mut wire).unwrap().unwrap();
            assert_eq!((ty, n), (ContentType::Handshake, wire.len()));
            assert_eq!(&wire[range], &[i, i, i][..]);
        }
        assert_eq!(sealer.seq(), 3);
        assert_eq!(opener.seq(), 3);
        assert!(!sealer.needs_key_update());
    }
}

#[test]
fn a_record_out_of_order_poisons_the_opener() {
    let secret = [1u8; 32];
    let mut sealer = Sealer::from_secret(&secret).unwrap();
    let mut opener = Opener::from_secret(&secret).unwrap();
    let mut first = sealer.seal(ContentType::ApplicationData, b"a").unwrap();
    let mut second = sealer.seal(ContentType::ApplicationData, b"b").unwrap();
    assert_eq!(opener.open(&mut second).err(), Some(RecordError::OpenFailed));
    assert_eq!(opener.open(&mut first).err(), Some(RecordError::Poisoned));
}

#[test]
fn records_that_are_no_ciphertext_are_refused() {
    let mut opener = Opener::from_secret(&[1; 32]).unwrap();
    let mut plain = PlaintextRecord::encode(ContentType::Handshake, &[0; 40]).unwrap();
    assert_eq!(opener.open(&mut plain).err(), Some(RecordError::NotCipherTextOuter));
    assert_eq!(
        opener.open(&mut [23, 3, 3, 0x41, 1]).err(),
        Some(RecordError::BodyTooLarge)
    );
    assert!(opener.open(&mut [23, 3, 3, 0]).unwrap().is_none());
    let mut sealer = Sealer::from_secret(&[1; 32]).unwrap();
    let mut ccs = sealer.seal(ContentType::ChangeCipherSpec, &[1]).unwrap();
    assert_eq!(opener.open(&mut ccs).err(), Some(RecordError::UnexpectedChangeCipherSpec));
    assert_eq!(
        sealer.seal(ContentType::ApplicationData, &vec![0; MAX_PLAINTEXT_BODY + 1]).err(),
        Some(RecordError::BodyTooLarge)
    );
}

#[test]
fn sealing_into_a_slice() {
    let mut sealer = Sealer::from_secret(&[3; 32]).unwrap();
    let mut wire = [0u8; 64];
    let n = sealer.seal_into_slice(ContentType::ApplicationData, b"hi", &mut wire).unwrap();
    assert_eq!(n, HEADER_LEN + b"hi".len() + 1 + AEAD_TAG_LEN);
    let mut opener = Opener::from_secret(&[3; 32]).unwrap();
    let (_, range, total) = opener.open(&mut wire).unwrap().unwrap();
    assert_eq!(total, n);
    assert_eq!(&wire[range], &b"hi"[..]);
    assert_eq!(
        sealer.seal_into_slice(ContentType::ApplicationData, b"hi", &mut [0u8; 10]),
        Err(RecordError::BufferTooSmall)
    );
    assert_eq!(sealer.seq(), 1);
    let mut out = vec![9];
    assert_eq!(sealer.seal_into(ContentType::ApplicationData, b"x", &mut out), Ok(()));
    assert_eq!(out[0], 9);
}

#[test]
fn suites_have_code_points() {
    assert_eq!(CipherSuite::from_u16(0x1301), Some(CipherSuite::Aes128GcmSha256));
    assert_eq!(CipherSuite::from_u16(0x1302), Some(CipherSuite::Aes256GcmSha384));
    assert_eq!(CipherSuite::from_u16(0x1303), Some(CipherSuite::ChaCha20Poly1305Sha256));
    assert_eq!(CipherSuite::from_u16(0x1304), None);
}

#[test]
fn errors_below_the_record_layer_are_carried() {
    assert_eq!(RecordKeyError::from(AeadError::BadKey), RecordKeyError::Aead(AeadError::BadKey));
    assert_eq!(
        RecordKeyError::from(HkdfError::LabelTooLong),
        RecordKeyError::Kdf(HkdfError::LabelTooLong)
    );
    assert_eq!(RecordError::from(AeadError::OpenFailed), RecordError::SealFailed);
}
