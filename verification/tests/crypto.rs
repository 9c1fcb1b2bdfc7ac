use shin::crypto::aead::{AeadAlgorithm, AeadError, AeadKey};
use shin::crypto::hash::{sha256, Algorithm, Digest, LengthError, Secret, Transcript, TranscriptError};
use shin::crypto::kdf::{Hkdf, HkdfError};
use shin::crypto::kx::{
    classical_client_share, hybrid_client_share, EphemeralKey, Error as KxError, HybridWorkspace, KexGroup,
    SharedSecret,
};
use shin::crypto::material::{Side, State, TrafficSecret};
use shin::crypto::schedule::{ResumptionMaster, Schedule, TrafficKeys};
use shin::crypto::sig::{Error as SigError, SignatureScheme, SigningKey, VerifyingKey};
use shin::record::CipherSuite;

fn hex(s: &str) -> Vec<u8> {
    let digits: Vec<u8> = s.bytes().filter(|b| !b.is_ascii_whitespace()).collect();
    digits
        .chunks(2)
        .map(|p| u8::from_str_radix(std::str::from_utf8(p).unwrap(), 16).unwrap())
        .collect()
}

#[test]
fn sha_256_of_abc() {
    let expected = hex("ba7816bf8f01cfea414140de5dae2223b00361a396177a9cb410ff61f20015ad");
    assert_eq!(&sha256(b"abc")[..], &expected[..]);
    assert_eq!(Algorithm::Sha256.hash(b"abc").as_slice(), &expected[..]);
    assert_eq!(Algorithm::Sha256.output_len(), 32);
}

#[test]
fn sha_384_of_abc() {
    let expected = hex(
        "cb00753f45a35e8bb5a03d699ac65007272c32ab0eded1631a8b605a43ff5bed8086072ba1e7cc2358baeca134c825a7",
    );
    assert_eq!(Algorithm::Sha384.hash(b"abc").as_slice(), &expected[..]);
    assert_eq!(Algorithm::Sha384.output_len(), 48);
}

#[test]
fn transcript_hashes_the_concatenation() {
    let mut t = Transcript::new();
    t.update(b"a");
    t.update(b"bc");
    assert_eq!(t.hash(Algorithm::Sha256).unwrap().as_slice(), &sha256(b"abc")[..]);
    let mut fork = t.fork();
    fork.update(b"d");
    assert_eq!(fork.hash(Algorithm::Sha256).unwrap().as_slice(), &sha256(b"abcd")[..]);
    assert_eq!(t.hash(Algorithm::Sha256).unwrap().as_slice(), &sha256(b"abc")[..]);
}

#[test]
fn transcript_keeps_to_the_selected_hash() {
    let mut t = Transcript::new();
    t.update(b"abc");
    assert_eq!(t.select(Algorithm::Sha384), Ok(()));
    assert_eq!(t.select(Algorithm::Sha384), Ok(()));
    let mismatch = TranscriptError::AlgorithmMismatch {
        selected: Algorithm::Sha384,
        requested: Algorithm::Sha256,
    };
    assert_eq!(t.select(Algorithm::Sha256), Err(mismatch));
    assert_eq!(t.hash(Algorithm::Sha256).err(), Some(mismatch));
    assert_eq!(
        t.hash(Algorithm::Sha384).unwrap().as_slice(),
        Algorithm::Sha384.hash(b"abc").as_slice()
    );
}

#[test]
fn transcript_restarts_with_a_message_hash() {
    let first = Algorithm::Sha256.hash(b"client hello");
    let t = Transcript::restart_with_message_hash(Algorithm::Sha256, &first).unwrap();
    let mut synthetic = vec![0xfe, 0, 0, 32];
    synthetic.extend_from_slice(first.as_slice());
    assert_eq!(t.hash(Algorithm::Sha256).unwrap().as_slice(), &sha256(&synthetic)[..]);
    assert_eq!(
        Transcript::restart_with_message_hash(Algorithm::Sha384, &first).err(),
        Some(TranscriptError::DigestLengthMismatch {
            algorithm: Algorithm::Sha384,
            actual: 32,
            expected: 48,
        })
    );
}

#[test]
fn digests_and_secrets_are_bounded() {
    assert_eq!(Digest::try_from_slice(&[1, 2, 3]).unwrap().as_slice(), &[1, 2, 3][..]);
    assert!(Digest::from_slice(&[1, 2, 3]) == Digest::from_slice(&[1, 2, 3]));
    assert!(Digest::from_slice(&[1, 2, 3]) != Digest::from_slice(&[1, 2, 3, 0]));
    assert_eq!(
        Digest::try_from_slice(&[0; 49]).err(),
        Some(LengthError { actual: 49, maximum: 48 })
    );
    assert_eq!(
        Secret::try_from_slice(&[0; 49]).err(),
        Some(LengthError { actual: 49, maximum: 48 })
    );
    let mut s = Secret::zeroed(4).unwrap();
    s.as_mut_slice()[2] = 7;
    assert_eq!(s.as_slice(), &[0, 0, 7, 0][..]);
    assert_eq!(s.to_digest().as_slice(), &[0, 0, 7, 0][..]);
}

#[test]
fn hkdf_extract_and_expand() {
    let hkdf = Hkdf::new(Algorithm::Sha256);
    let prk = hkdf.extract(&hex("000102030405060708090a0b0c"), &[0x0b; 22]);
    assert_eq!(
        prk.as_slice(),
        &hex("077709362c2e32df0ddc3f0dc47bba6390b6c73bb50f9c3122ec844ad7c2b3e5")[..]
    );
    let mut okm = [0u8; 42];
    assert_eq!(hkdf.expand(prk.as_slice(), &hex("f0f1f2f3f4f5f6f7f8f9"), &mut okm), Ok(()));
    assert_eq!(
        &okm[..],
        &hex("3cb25f25faacd57a90434f64d0362f2a2d2d0a90cf1a5a4c5db02d56ecc4c5bf34007208d5b887185865")[..]
    );
}

#[test]
fn hkdf_limits() {
    let hkdf = Hkdf::new(Algorithm::Sha256);
    let prk = [7u8; 32];
    let mut long = vec![0u8; 255 * 32 + 1];
    assert_eq!(hkdf.expand(&prk, b"", &mut long), Err(HkdfError::OutputTooLong));
    let label = "x".repeat(250);
    let mut out = [0u8; 32];
    assert_eq!(hkdf.expand_label(&prk, &label, b"", &mut out), Err(HkdfError::LabelTooLong));
    assert_eq!(
        hkdf.expand_label(&prk, "key", &[0; 256], &mut out),
        Err(HkdfError::ContextTooLong)
    );
}

#[test]
fn key_schedule_of_a_simple_handshake() {
    let early = Schedule::new(Algorithm::Sha256);
    assert_eq!(
        early.secret().as_slice(),
        &hex("33ad0a1c607ec03b09e6cd9893680ce210adf300aa1f2660e1b22e10f170f92a")[..]
    );
    let handshake = early
        .into_handshake(&hex("8bd4054fb55b9d63fdfbacf9f04b9f0d35e6d63f537563efd46272900f89492d"))
        .unwrap();
    assert_eq!(
        handshake.secret().as_slice(),
        &hex("1dc826e93606aa6fdc0aadc12f741b01046aa6b99f691ed221a9f0ca043fbeac")[..]
    );
    let hash = hex("000102030405060708090a0b0c0d0e0f101112131415161718191a1b1c1d1e1f");
    assert_eq!(
        handshake.client_handshake_traffic_secret(&hash).unwrap().as_slice(),
        &hex("e346d92d1d7d4dd514452aec51595bb7b22b322b579db08bbc63b555c595b5ce")[..]
    );
    let server = handshake.server_handshake_traffic_secret(&hash).unwrap();
    assert_eq!(
        server.as_slice(),
        &hex("bfba9a8ec1851f07aba05c6ab42fd4ab31604f0a592afa7a9f4a1e8fd846d394")[..]
    );
    let keys = TrafficKeys::<16>::derive(Algorithm::Sha256, server.as_slice()).unwrap();
    assert_eq!(&keys.key[..], &hex("e68567221ad48157e5143032bd94b780")[..]);
    assert_eq!(&keys.iv[..], &hex("2b35ac16f84757bcba4c49d6")[..]);
    let master = handshake.into_master().unwrap();
    assert_eq!(
        master.secret().as_slice(),
        &hex("18df06843d13a08bf2a449844c5f8a478001bc4d4c627984d5a41da8d0402919")[..]
    );
}

#[test]
fn resumption_psk_depends_on_the_nonce() {
    let master = Schedule::new(Algorithm::Sha256);
    let secret = master.resumption_master_secret(&[1; 32]).unwrap();
    let a = ResumptionMaster::from_secret(&secret).psk(&[0]).unwrap();
    let b = ResumptionMaster::from_secret(&secret).psk(&[1]).unwrap();
    assert_eq!(a.as_slice().len(), 32);
    assert_ne!(a.as_slice(), b.as_slice());
}

#[test]
fn exported_material_fills_the_buffer() {
    let em = [9u8; 32];
    let mut a = [0u8; 40];
    let mut b = [0u8; 40];
    assert_eq!(Schedule::export_keying_material(Algorithm::Sha256, &em, "l", b"c", &mut a), Ok(()));
    assert_eq!(Schedule::export_keying_material(Algorithm::Sha256, &em, "m", b"c", &mut b), Ok(()));
    assert_ne!(a, b);
    assert_ne!(a, [0u8; 40]);
}

#[test]
fn aes_gcm_known_answer() {
    let key = AeadKey::new(AeadAlgorithm::Aes128Gcm, &[0; 16], [0; 12]).unwrap();
    let sealed = key.seal(0, b"", &[0; 16]).unwrap();
    assert_eq!(
        sealed,
        hex("0388dace60b6a392f328c2b971b2fe78ab6e47d42cec13bdf53a67b21257bddf")
    );
    assert_eq!(key.open(0, b"", &sealed).unwrap(), vec![0u8; 16]);
    assert!(key.open(1, b"", &sealed).is_err());
    assert!(key.open(0, b"x", &sealed).is_err());
    assert!(AeadKey::new(AeadAlgorithm::Aes256Gcm, &[0; 16], [0; 12]).is_err());
}

#[test]
fn every_aead_opens_what_it_seals() {
    for (alg, len) in [
        (AeadAlgorithm::Aes128Gcm, 16),
        (AeadAlgorithm::Aes256Gcm, 32),
        (AeadAlgorithm::ChaCha20Poly1305, 32),
    ] {
        let key = AeadKey::new(alg, &vec![3; len], [5; 12]).unwrap();
        let sealed = key.seal(9, b"aad", b"hello").unwrap();
        assert_eq!(sealed.len(), 5 + 16);
        assert_eq!(key.open(9, b"aad", &sealed).unwrap(), b"hello".to_vec());
        let mut bad = sealed.clone();
        bad[0] ^= 1;
        assert_eq!(key.open(9, b"aad", &bad), Err(AeadError::OpenFailed));
    }
}

#[test]
fn both_sides_agree_on_a_secret() {
    for group in KexGroup::SUPPORTED {
        let key = EphemeralKey::generate(group).unwrap();
        assert_eq!(key.group(), group);
        let (share, ours) = group.responder(key.client_share()).unwrap();
        assert_eq!(share.len(), group.server_share_len());
        let theirs = key.agree(&share).unwrap();
        assert_eq!(ours.as_slice(), theirs.as_slice());
    }
}

#[test]
fn a_response_into_a_buffer_agrees() {
    for group in KexGroup::SUPPORTED {
        let key = EphemeralKey::generate(group).unwrap();
        let mut buffer = vec![0u8; group.server_share_len()];
        let response = group.respond(key.client_share(), &mut buffer).unwrap();
        let share = response.share().to_vec();
        let ours = response.into_secret();
        assert_eq!(key.agree(&share).unwrap().as_slice(), ours.as_slice());
    }
}

#[test]
fn a_workspace_keeps_one_exchange() {
    for group in KexGroup::SUPPORTED {
        let mut w = HybridWorkspace::new();
        assert_eq!(w.pending_group(), None);
        let share = w.generate(group).unwrap();
        assert_eq!(w.pending_group(), Some(group));
        let (answer, ours) = group.responder(&share).unwrap();
        assert_eq!(w.agree(&answer).unwrap().as_slice(), ours.as_slice());
        assert_eq!(w.pending_group(), None);
        assert!(w.agree(&answer).is_err());
    }
}

#[test]
fn bad_shares_are_refused() {
    assert_eq!(KexGroup::X25519.responder(&[1; 31]).err(), Some(KxError::InvalidPubkey));
    assert_eq!(KexGroup::Secp256r1.responder(&[1; 65]).err(), Some(KxError::InvalidPubkey));
    assert_eq!(KexGroup::X25519Mlkem768.responder(&[1; 100]).err(), Some(KxError::InvalidPubkey));
    assert_eq!(KexGroup::X25519Mlkem768.responder(&[0xff; 1216]).err(), Some(KxError::InvalidPubkey));
    assert_eq!(KexGroup::X25519.responder(&[0; 32]).err(), Some(KxError::InvalidPubkey));
    let key = EphemeralKey::generate(KexGroup::X25519Mlkem768).unwrap();
    assert_eq!(key.agree(&[0; 10]).err(), Some(KxError::InvalidPubkey));
}

#[test]
fn groups_have_code_points() {
    assert_eq!(KexGroup::from_u16(0x001d), Some(KexGroup::X25519));
    assert_eq!(KexGroup::from_u16(0x0017), Some(KexGroup::Secp256r1));
    assert_eq!(KexGroup::from_u16(0x11ec), Some(KexGroup::X25519Mlkem768));
    assert_eq!(KexGroup::from_u16(0x0018), None);
    assert_eq!(SharedSecret::from_parts(&[1], &[2, 3]).as_slice(), &[1, 2, 3][..]);
}

#[test]
fn ed25519_known_answer() {
    let mut seed = [0u8; 32];
    seed.copy_from_slice(&hex("9d61b19deffd5a60ba844af492ec2cc44449c5697b326919703bac031cae7f60"));
    let key = SigningKey::from_seed(&seed).unwrap();
    assert_eq!(
        &key.pubkey().unwrap()[..],
        &hex("d75a980182b10ab7d54bfed3c964073a0ee172f3daa62325af021a68f707511a")[..]
    );
    let sig = key.sign(b"").unwrap();
    assert_eq!(
        sig,
        hex(
            "e5564300c360ac729086e2cc806e828a84877f1eb8e5d974d873e065224901555fb8821590a33bacc61e39701cf9b46bd25bf5f0595bbe24655141438e7a100b"
        )
    );
    assert_eq!(key.sig_scheme().wire_id(), SignatureScheme::ED25519);
    assert!(key.is_ed25519());
    let public = key.pubkey().unwrap();
    assert_eq!(VerifyingKey::Ed25519(public).verify(b"", &sig), Ok(()));
    assert_eq!(VerifyingKey::Ed25519(public).verify(b"x", &sig), Err(SigError::VerifyFailed));
}

#[test]
fn ecdsa_keys_sign_and_verify() {
    let rng = ring::rand::SystemRandom::new();
    let p256 = ring::signature::EcdsaKeyPair::generate_pkcs8(
        &ring::signature::ECDSA_P256_SHA256_ASN1_SIGNING,
        &rng,
    )
    .unwrap();
    let key = SigningKey::from_ecdsa_p256_pkcs8(p256.as_ref()).unwrap();
    let sig = key.sign(b"message").unwrap();
    assert!(sig.len() <= key.signature_len_upper_bound());
    let public = key.ecdsa_p256_pubkey().unwrap();
    assert_eq!(public.len(), 65);
    assert_eq!(VerifyingKey::EcdsaP256(public).verify(b"message", &sig), Ok(()));
    assert_eq!(VerifyingKey::EcdsaP256(public).verify(b"massage", &sig), Err(SigError::VerifyFailed));
    assert_eq!(key.sig_scheme().wire_id(), 0x0403);
    let p384 = ring::signature::EcdsaKeyPair::generate_pkcs8(
        &ring::signature::ECDSA_P384_SHA384_ASN1_SIGNING,
        &rng,
    )
    .unwrap();
    let key = SigningKey::from_ecdsa_p384_pkcs8(p384.as_ref()).unwrap();
    let sig = key.sign(b"message").unwrap();
    let public = key.ecdsa_p384_pubkey().unwrap();
    assert_eq!(public.len(), 97);
    assert_eq!(VerifyingKey::EcdsaP384(public).verify(b"message", &sig), Ok(()));
    assert_eq!(key.sig_scheme().wire_id(), 0x0503);
}

#[test]
fn rsa_keys_sign_and_verify() {
    let document = hex(
        "308204be020100300d06092a864886f70d0101010500048204a8308204a40201000282010100b18e98fa5167
         207bb8cdb917b4c56c4eb3d047c42ee16db9c1c73a071a4297184762bc605c2b1d0fde23f892171fb5c4f9f0
         9a51240397ef47ac63f6c98453f5b1803c31f696043122c80f7919f6567c5b73aeeb24151da322b5df6ed2bd
         e5d43653cd8f091ea5e5a3ae3071f62c0ffbe7be52cf74dca91295136ce1fdd559913d5ed70216e53e24261e
         089f655f449908daa8cd56968cc036555409d3d231de420a96c9516c775e484914dc44f4367379e89d4e539e
         4bdf780a06b537f0ca224a8f55d4242824617b0784fe13194637c676f7d4b9636b7f460cc4e8b936f64325e5
         9989dadef2828bd5b11975b5706ecd0b9088fae4f03dfc9043e6f08e685f02030100010282010010b89b9fd3
         3906de453df124e78c176790028387ae5c8cc4a0c2f381860fbdad4bd2636820609a5e36042588132fbecd51
         3669e9f89e1d59ab8d1e10387e6d9911416b7f2462e5fbd49e8a3fd42f4134ce8dfb413f5c27b6dc71769c62
         b1ff2a0d80608c37067bb16a73e08712f0fd03b2eed705f2279d052d79da02ac5b6d119ad03deff8a9c146eb
         b748da2b134f74976f1561fcc37d4911bbd563dad49f7ec643f0fba76f69e170bffd8eed106638ee61239b6d
         43984334440733819270c982c6c38a22c30dce40c8113f966362743e5a364572c3f2afd7455e602174693711
         e62dc59ef2d6f92b1817067287d370971dd04d602443be98b23417636ad09902818100d8ef78c645394a3547
         7f8e454f2786b1f8ab3ade4e469e591609c659dbc3e40ba8db4576ff54926e7d7118911ec503ae4dae5dd79b
         1ecf281605819b8f1da85ce141ae0e84c1fc463384eb67002df1dd0d3e80e8d24cc96661df4359da354ca067
         056ffaec64ac51ecfd849fc745639752d21fc95d84a782c2197cf6870b11c702818100d187d0fb93fd8433e7
         8584caed04323da24cff6045343a73a35bb44d9ededc096ded678ea0950953977d2b376672f9ffee1c343a28
         fe91f0e9aa1022b7d963213e205ab72b2aedd9c9a4b545520d143ad599cd9aff311e8e5c652f6c5aa013a9c3
         bd33d52721e1178ebf32d576f4970107a83840e47e17609d12feb41842f4a902818100bc6980a3f38b86802f
         d10168010f7b55277cd06c33dff1b7be044f59cc1d9efae1755027c22b59e2cce0654de54387a6e3a105b034
         f1d54a239634b33ee1ab50bff3a390c88d12e685e873ebc9a41de4b79409b22cb4b4574fb9f16d20b01a1556
         64ca954cab435f044e4bd9d9e0d256a3800c4b8005aed74a6d88b33526d01102818100ad5ef6d1a3834a6774
         336b4c494f868eaf038cef4873cdc5af2e8b030ae896228b3dbbc92d200466915b756dd2ac62259d0ce33e18
         7b83a056876bf07e3536abe3eefb80c20c346057539cd5eded7a86b005223614dfbccbc8b1c4caa03601ef1f
         5227584097ecdb04373a459cb7075747d1ae322b9e1593d0844e12105d1e790281802c9d059b039dbcef5836
         5ad994c44c49f72067ebf093996d7e301454d030c94c1dbffb108d3491c5c7223835efb1aed9c75c9cf95469
         8e8ca263a48de3d2e5fe27f39399ef2f3553d0b01145a52b81077c1c0739f51e9069a37aeef68639ef3b4184
         c66bea6ae141a64070a4cbd6371cf2770b5843b180fb4c19dda65b865abb",
    );
    let der = hex(
        "3082010a0282010100b18e98fa5167207bb8cdb917b4c56c4eb3d047c42ee16db9c1c73a071a4297184762bc
         605c2b1d0fde23f892171fb5c4f9f09a51240397ef47ac63f6c98453f5b1803c31f696043122c80f7919f656
         7c5b73aeeb24151da322b5df6ed2bde5d43653cd8f091ea5e5a3ae3071f62c0ffbe7be52cf74dca91295136c
         e1fdd559913d5ed70216e53e24261e089f655f449908daa8cd56968cc036555409d3d231de420a96c9516c77
         5e484914dc44f4367379e89d4e539e4bdf780a06b537f0ca224a8f55d4242824617b0784fe13194637c676f7
         d4b9636b7f460cc4e8b936f64325e59989dadef2828bd5b11975b5706ecd0b9088fae4f03dfc9043e6f08e68
         5f0203010001",
    );
    let key = SigningKey::from_rsa_pkcs8(&document).unwrap();
    assert_eq!(key.rsa_public_key_der(), Some(&der[..]));
    assert_eq!(key.pubkey(), None);
    assert_eq!(key.ecdsa_p256_pubkey(), None);
    assert_eq!(key.sig_scheme().wire_id(), 0x0804);
    assert_eq!(key.signature_len_upper_bound(), 256);
    let sig = key.sign(b"message").unwrap();
    assert_eq!(sig.len(), 256);
    assert_eq!(VerifyingKey::RsaPssSha256(&der).verify(b"message", &sig), Ok(()));
    assert_eq!(VerifyingKey::RsaPssSha256(&der).verify(b"massage", &sig), Err(SigError::VerifyFailed));
    assert_eq!(VerifyingKey::RsaPssSha384(&der).verify(b"message", &sig), Err(SigError::VerifyFailed));
}

#[test]
fn broken_documents_hold_no_key() {
    assert_eq!(SigningKey::from_ecdsa_p256_pkcs8(b"x").err(), Some(SigError::InvalidKey));
    assert_eq!(SigningKey::from_ecdsa_p384_pkcs8(b"x").err(), Some(SigError::InvalidKey));
    assert_eq!(SigningKey::from_rsa_pkcs8(b"x").err(), Some(SigError::InvalidKey));
}

#[test]
fn application_secrets_advance_one_side_at_a_time() {
    let mut s = State::Empty;
    assert!(s.secret(Side::Client).is_err());
    assert!(s.select(CipherSuite::Aes128GcmSha256).is_ok());
    assert!(s.select(CipherSuite::Aes256GcmSha384).is_err());
    let client = TrafficSecret::try_from_slice(&[1; 32]).unwrap();
    let server = TrafficSecret::try_from_slice(&[2; 32]).unwrap();
    assert!(s.activate(client, server).is_ok());
    let before = s.secret(Side::Server).unwrap().as_slice().to_vec();
    assert!(s.advance(Side::Client).is_ok());
    assert_ne!(s.secret(Side::Client).unwrap().as_slice(), &[1u8; 32][..]);
    assert_eq!(s.secret(Side::Server).unwrap().as_slice(), &before[..]);
}

#[test]
fn client_shares_are_made_of_public_keys() {
    assert_eq!(classical_client_share(vec![4; 65]).ok(), Some(vec![4; 65]));
    assert_eq!(classical_client_share(vec![4; 66]).err(), Some(KxError::Generate));
    let share = hybrid_client_share(vec![1; 1184], &[2; 32]).unwrap();
    assert_eq!(share, [vec![1; 1184], vec![2; 32]].concat());
    assert_eq!(hybrid_client_share(vec![1; 1184], &[2; 33]).err(), Some(KxError::Generate));
}
