use shin::crypto::material::ResumptionPsk;
use shin::crypto::ticket::claims::Claims;
use shin::crypto::ticket::context::Context;
use shin::crypto::ticket::keys::Keys;
use shin::crypto::ticket::rotator::Rotator;
use shin::crypto::ticket::secret::Secret;
use shin::crypto::ticket::Error;
use shin::record::CipherSuite;
use shin::ticket::{TicketError, TicketKeys, TicketRotator, TicketSecret};
use shin::transport::Mode;

#[test]
fn a_ticket_opens_to_what_was_sealed() {
    let keys = TicketKeys::single([1; 32]);
    let sealed = keys.encrypt(&[2; 32], 77, 1234, 0x1301, b"h3").unwrap();
    assert_eq!(sealed.len(), 75 + 2);
    let t = keys.decrypt(sealed.as_slice()).unwrap();
    assert_eq!(t.psk, [2; 32]);
    assert_eq!((t.age_add, t.issued_at_ms, t.suite), (77, 1234, 0x1301));
    assert_eq!(t.alpn(), &b"h3"[..]);
    let mut bad = sealed.as_slice().to_vec();
    bad[20] ^= 1;
    assert_eq!(keys.decrypt(&bad).err(), Some(TicketError::BadAuth));
    assert_eq!(keys.decrypt(&bad[..50]).err(), Some(TicketError::BadFormat));
    assert_eq!(
        keys.encrypt(&[2; 32], 0, 0, 0x1301, &[0; 256]).err(),
        Some(TicketError::BadFormat)
    );
}

#[test]
fn sealing_depends_on_the_nonce_alone() {
    let secret = TicketSecret::new([5; 32]);
    let a = secret.seal(&[2; 32], 1, 2, 0x1301, b"", [7; 12]).unwrap();
    let b = secret.seal(&[2; 32], 1, 2, 0x1301, b"", [7; 12]).unwrap();
    let c = secret.seal(&[2; 32], 1, 2, 0x1301, b"", [8; 12]).unwrap();
    assert!(a == b && a == a.clone());
    assert!(a != c);
    assert!(secret.decrypt(a.as_slice()).unwrap() == secret.decrypt(c.as_slice()).unwrap());
    assert_eq!(&a.as_slice()[..12], &[7u8; 12][..]);
}

#[test]
fn the_previous_secret_still_opens() {
    let old = TicketKeys::single([1; 32]);
    let sealed = old.encrypt(&[2; 32], 0, 0, 0x1301, b"").unwrap();
    let both = TicketKeys::with_previous([9; 32], Some([1; 32]));
    assert!(both.decrypt(sealed.as_slice()).is_ok());
    let new = both.encrypt(&[2; 32], 0, 0, 0x1301, b"").unwrap();
    assert!(TicketKeys::single([9; 32]).decrypt(new.as_slice()).is_ok());
    assert!(old.decrypt(new.as_slice()).is_err());
    let gone = TicketKeys::with_previous([9; 32], Some([8; 32]));
    assert_eq!(gone.decrypt(sealed.as_slice()).err(), Some(TicketError::BadAuth));
}

#[test]
fn rotation_keeps_one_generation() {
    let mut r = TicketRotator::from_secret([1; 32], 0, 1000, 5);
    let keys = r.issuing_keys(10).unwrap();
    let sealed = keys.encrypt(&[2; 32], 0, 0, 0x1301, b"").unwrap();
    r.rotate([3; 32], 2000);
    assert!(r.accepting_keys().decrypt(sealed.as_slice()).is_ok());
    r.rotate([4; 32], 4000);
    assert!(r.accepting_keys().decrypt(sealed.as_slice()).is_err());
    let mut counted = TicketRotator::from_secret([1; 32], 0, 1_000_000, 2);
    let first = counted.issuing_keys(1).unwrap().encrypt(&[2; 32], 0, 0, 1, b"").unwrap();
    assert!(counted.issuing_keys(2).is_ok());
    // The third ticket is sealed under a new secret; the first still opens.
    let third = counted.issuing_keys(3).unwrap().encrypt(&[2; 32], 0, 0, 1, b"").unwrap();
    assert!(TicketKeys::single([1; 32]).decrypt(third.as_slice()).is_err());
    assert!(counted.accepting_keys().decrypt(first.as_slice()).is_ok());
}

fn claims<'a>(psk: &'a ResumptionPsk, alpn: &'a [u8], context: Context) -> Claims<'a> {
    Claims { psk, age_add: 5, issued_at_ms: 6, suite: CipherSuite::Aes128GcmSha256, alpn, context }
}

#[test]
fn claims_open_to_what_was_sealed() {
    let keys = Keys::single([1; 32]).unwrap();
    let psk = ResumptionPsk::new([9; 32]);
    let context = Context::new_with_replay_domain(Mode::Quic, Some(u32::MAX), b"params", [4; 16]);
    let sealed = keys.encrypt_claims(claims(&psk, b"h3", context)).unwrap();
    assert_eq!(sealed.as_slice().len(), 130 + 2);
    let opened = keys.decrypt(sealed.as_slice()).unwrap();
    assert_eq!(opened.psk.as_slice(), &[9u8; 32][..]);
    assert_eq!(opened.alpn(), &b"h3"[..]);
    assert_eq!((opened.age_add, opened.issued_at_ms), (5, 6));
    assert_eq!(opened.suite, CipherSuite::Aes128GcmSha256);
    assert_eq!(opened.context.max_early_data(), Some(u32::MAX));
    assert_eq!(
        opened.context.early_data_for_replay_domain(Mode::Quic, b"params", &[4; 16]),
        Some(u32::MAX)
    );
    assert_eq!(opened.context.early_data_for_replay_domain(Mode::Tls, b"params", &[4; 16]), None);
    assert_eq!(opened.context.early_data_for_replay_domain(Mode::Quic, b"other", &[4; 16]), None);
    assert_eq!(opened.context.early_data_for_replay_domain(Mode::Quic, b"params", &[5; 16]), None);
    assert!(opened.context == context);
    assert!(opened == keys.decrypt(sealed.clone().as_slice()).unwrap());
    let matching = keys.decrypt_resumption(sealed.as_slice(), b"h3").unwrap();
    assert!(matching.alpn_matches);
    let other = keys.decrypt_resumption(sealed.as_slice(), b"h2").unwrap();
    assert!(!other.alpn_matches);
    assert_eq!(keys.decrypt(b"short").err(), Some(Error::BadFormat));
    let limited = Context::new(Mode::Quic, Some(1000), b"params");
    assert_eq!(
        keys.encrypt_claims(claims(&psk, b"h3", limited)).err(),
        Some(Error::BadFormat)
    );
    let mut bad = sealed.as_slice().to_vec();
    bad[30] ^= 1;
    assert_eq!(keys.decrypt(&bad).err(), Some(Error::BadAuth));
}

#[test]
fn contexts_round_trip() {
    let context = Context::new(Mode::Tls, None, b"");
    let secret = Secret::new([3; 32]).unwrap();
    let psk = ResumptionPsk::new([9; 32]);
    let a = secret.seal_claims(claims(&psk, b"", context), [1; 12]).unwrap();
    let b = secret.seal_claims(claims(&psk, b"", context), [1; 12]).unwrap();
    assert!(a == b && a == a.clone());
    assert!(secret.clone().seal_claims(claims(&psk, b"", context), [2; 12]).unwrap() != a);
    assert!(Context::new(Mode::Quic, None, b"") != context);
    assert!(Context::new(Mode::Tls, Some(1), b"") != context);
    assert!(Context::new(Mode::Tls, None, b"params") != context);
    assert_eq!(secret.decrypt(a.as_slice()).unwrap().context.transport_mode(), Mode::Tls);
    assert!(Context::decode(&[]).is_err());
}

#[test]
fn rotators_rotate_when_due() {
    let mut r = Rotator::from_secret([1; 32], 0, 100, 10).unwrap();
    let psk = [2u8; 32];
    let sealed = r
        .issuing_keys(50)
        .unwrap()
        .encrypt(&psk, 0, 0, CipherSuite::Aes128GcmSha256, b"")
        .unwrap();
    let after = r.issuing_keys(101).unwrap();
    assert!(after.decrypt(sealed.as_slice()).is_ok());
    assert!(Keys::single([1; 32]).unwrap().decrypt(sealed.as_slice()).is_ok());
    let newer = after.encrypt(&psk, 0, 0, CipherSuite::Aes128GcmSha256, b"").unwrap();
    assert!(Keys::single([1; 32]).unwrap().decrypt(newer.as_slice()).is_err());
}
