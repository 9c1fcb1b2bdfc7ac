use shin::crypto::sig::{SigningKey, VerificationProfile};
use shin::hostname::Hostname as Names;
use shin::identity::asn1::{BitString, DerError, Oid, Reader, Tag, Tlv, Uint};
use shin::identity::cert::algorithm::{NamedCurve, PublicKey, Signature};
use shin::identity::cert::dn::profile::Profile as Preparation;
use shin::identity::cert::dn::{rdns_equal, DistinguishedName, NameKey};
use shin::identity::cert::ext::scope::{GeneralName, NameConstraints};
use shin::identity::cert::ext::{BasicConstraints, ExtendedKeyUsages, ExtensionIter, KeyUsage};
use shin::identity::cert::{Cert, Error as CertError, SubjectPublicKeyInfo, VerifyError};
use shin::identity::chain::extensions::Profile;
use shin::identity::chain::path::Path;
use shin::identity::chain::prepared::PreparedNameConstraints;
use shin::identity::chain::{Chain, Error as ChainError, TrustAnchor};
use shin::identity::hostname::Hostname;
use shin::identity::leafkey::{LeafKey, LeafKeyKind};
use shin::identity::spki::{Error as SpkiError, SubjectPublicKey};
use shin::identity::time::UnixTime;
use shin::identity::CertificateType;
use shin::peer;
use shin::Error;

fn tlv(tag: u8, contents: &[u8]) -> Vec<u8> {
    let mut out = vec![tag];
    let n = contents.len();
    if n < 0x80 {
        out.push(n as u8);
    } else if n < 0x100 {
        out.extend_from_slice(&[0x81, n as u8]);
    } else {
        out.extend_from_slice(&[0x82, (n >> 8) as u8, n as u8]);
    }
    out.extend_from_slice(contents);
    out
}

fn seq(parts: &[Vec<u8>]) -> Vec<u8> {
    tlv(0x30, &parts.concat())
}

fn name(cn: &str) -> Vec<u8> {
    let attribute = seq(&[tlv(0x06, &[0x55, 4, 3]), tlv(0x0c, cn.as_bytes())]);
    tlv(0x30, &tlv(0x31, &attribute))
}

fn ed25519() -> Vec<u8> {
    seq(&[tlv(0x06, &[0x2b, 0x65, 0x70])])
}

fn extension(oid: &[u8], critical: bool, value: Vec<u8>) -> Vec<u8> {
    let mut parts = vec![tlv(0x06, oid)];
    if critical {
        parts.push(tlv(0x01, &[0xff]));
    }
    parts.push(tlv(0x04, &value));
    seq(&parts)
}

fn ca(path_len: Option<u8>) -> Vec<u8> {
    let mut parts = vec![tlv(0x01, &[0xff])];
    if let Some(n) = path_len {
        parts.push(tlv(0x02, &[n]));
    }
    extension(&[0x55, 0x1d, 0x13], true, seq(&parts))
}

fn dns_names(names: &[&str]) -> Vec<u8> {
    let parts: Vec<Vec<u8>> = names.iter().map(|n| tlv(0x82, n.as_bytes())).collect();
    extension(&[0x55, 0x1d, 0x11], false, seq(&parts))
}

fn key_usage(bits: u8, unused: u8) -> Vec<u8> {
    extension(&[0x55, 0x1d, 0x0f], true, tlv(0x03, &[unused, bits]))
}

fn server_auth() -> Vec<u8> {
    extension(&[0x55, 0x1d, 0x25], false, seq(&[tlv(0x06, &[0x2b, 6, 1, 5, 5, 7, 3, 1])]))
}

fn client_auth() -> Vec<u8> {
    extension(&[0x55, 0x1d, 0x25], false, seq(&[tlv(0x06, &[0x2b, 6, 1, 5, 5, 7, 3, 2])]))
}

fn constraints(permitted: &[&str], excluded: &[&str]) -> Vec<u8> {
    let list = |tag: u8, l: &[&str]| {
        let parts: Vec<Vec<u8>> =
            l.iter().map(|n| seq(&[tlv(0x82, n.as_bytes())])).collect();
        tlv(tag, &parts.concat())
    };
    let mut parts = Vec::new();
    if !permitted.is_empty() {
        parts.push(list(0xa0, permitted));
    }
    if !excluded.is_empty() {
        parts.push(list(0xa1, excluded));
    }
    seq(&parts)
}

fn key(b: u8) -> SigningKey {
    SigningKey::from_seed(&[b; 32]).unwrap()
}

fn spki(k: &SigningKey) -> Vec<u8> {
    SubjectPublicKey::encoded_ed25519(k.pubkey().unwrap()).to_vec()
}

/// A certificate from 2020 to 2030.
fn certificate(
    issuer: &str,
    signer: &SigningKey,
    subject: &str,
    holder: &SigningKey,
    extensions: &[Vec<u8>],
) -> Vec<u8> {
    let validity = seq(&[tlv(0x17, b"200101000000Z"), tlv(0x17, b"300101000000Z")]);
    let mut parts = vec![
        tlv(0xa0, &tlv(0x02, &[2])),
        tlv(0x02, &[1]),
        ed25519(),
        name(issuer),
        validity,
        name(subject),
        spki(holder),
    ];
    if !extensions.is_empty() {
        parts.push(tlv(0xa3, &seq(extensions)));
    }
    let tbs = seq(&parts);
    let mut bits = vec![0];
    bits.extend_from_slice(&signer.sign(&tbs).unwrap());
    seq(&[tbs, ed25519(), tlv(0x03, &bits)])
}

const NOW: u64 = 1_700_000_000;

fn now() -> UnixTime {
    UnixTime::from_secs(NOW)
}

fn root() -> Vec<u8> {
    certificate("root", &key(1), "root", &key(1), &[ca(None)])
}

fn leaf_with(extensions: &[Vec<u8>]) -> Vec<u8> {
    certificate("root", &key(1), "leaf", &key(2), extensions)
}

fn verdict(chain: &[Vec<u8>], anchor: &[u8], host: &str, at: UnixTime) -> Result<(), ChainError> {
    let certs: Vec<Cert<'_>> = chain.iter().map(|d| Cert::parse(d).unwrap()).collect();
    let root = Cert::parse(anchor).unwrap();
    let anchors = [TrustAnchor::from_cert(&root)];
    Chain::new(&certs).validate(&anchors, at, host.as_bytes())
}

#[test]
fn a_leaf_under_an_anchor_is_valid() {
    let leaf = leaf_with(&[dns_names(&["example.com", "*.example.org"])]);
    assert_eq!(verdict(&[leaf.clone()], &root(), "example.com", now()), Ok(()));
    assert_eq!(verdict(&[leaf.clone()], &root(), "a.example.org", now()), Ok(()));
    assert_eq!(
        verdict(&[leaf.clone()], &root(), "a.b.example.org", now()),
        Err(ChainError::HostnameMismatch)
    );
    let cert = Cert::parse(&leaf).unwrap();
    let root_der = root();
    let anchor = Cert::parse(&root_der).unwrap();
    let chain = Chain::new(&[cert]);
    let found = chain
        .validate_with_anchors(&[TrustAnchor::from_cert(&anchor)], now(), b"example.com")
        .unwrap();
    assert_eq!(found.spki().subject_public_key, &key(2).pubkey().unwrap()[..]);
}

#[test]
fn intermediates_may_come_in_any_order() {
    let middle = certificate("root", &key(1), "middle", &key(3), &[ca(None)]);
    let lower = certificate("middle", &key(3), "lower", &key(4), &[ca(None)]);
    let leaf = certificate("lower", &key(4), "leaf", &key(2), &[dns_names(&["example.com"])]);
    for chain in [
        vec![leaf.clone(), lower.clone(), middle.clone()],
        vec![leaf.clone(), middle.clone(), lower.clone()],
    ] {
        assert_eq!(verdict(&chain, &root(), "example.com", now()), Ok(()));
    }
    assert_eq!(
        verdict(&[leaf.clone(), middle.clone()], &root(), "example.com", now()),
        Err(ChainError::IssuerSubjectMismatch)
    );
    let ders = [leaf, middle, lower];
    let certs: Vec<Cert<'_>> = ders.iter().map(|d| Cert::parse(d).unwrap()).collect();
    assert_eq!(Path::build(&certs).indices(), &[0, 2, 1][..]);
}

#[test]
fn validity_is_checked() {
    let leaf = leaf_with(&[dns_names(&["example.com"])]);
    let before = UnixTime::from_secs(1_577_836_799);
    let first = UnixTime::from_secs(1_577_836_800);
    let last = UnixTime::from_secs(1_893_456_000);
    let after = UnixTime::from_secs(1_893_456_001);
    assert_eq!(
        verdict(&[leaf.clone()], &root(), "example.com", before),
        Err(ChainError::NotYetValid)
    );
    assert_eq!(verdict(&[leaf.clone()], &root(), "example.com", first), Ok(()));
    assert_eq!(verdict(&[leaf.clone()], &root(), "example.com", last), Ok(()));
    assert_eq!(verdict(&[leaf], &root(), "example.com", after), Err(ChainError::Expired));
}

#[test]
fn a_signature_by_another_key_reaches_no_anchor() {
    let leaf = certificate("root", &key(9), "leaf", &key(2), &[dns_names(&["example.com"])]);
    assert_eq!(verdict(&[leaf], &root(), "example.com", now()), Err(ChainError::NoTrustAnchor));
}

#[test]
fn end_entities_are_checked() {
    let names = dns_names(&["example.com"]);
    assert_eq!(
        verdict(&[leaf_with(&[ca(None), names.clone()])], &root(), "example.com", now()),
        Err(ChainError::NotEndEntity)
    );
    assert_eq!(
        verdict(&[leaf_with(&[key_usage(0x20, 5), names.clone()])], &root(), "example.com", now()),
        Err(ChainError::LeafKeyUsageInvalid)
    );
    assert_eq!(
        verdict(&[leaf_with(&[key_usage(0x80, 7), names.clone()])], &root(), "example.com", now()),
        Ok(())
    );
    assert_eq!(
        verdict(&[leaf_with(&[client_auth(), names.clone()])], &root(), "example.com", now()),
        Err(ChainError::NoServerAuth)
    );
    assert_eq!(
        verdict(&[leaf_with(&[server_auth(), names.clone()])], &root(), "example.com", now()),
        Ok(())
    );
    assert_eq!(
        verdict(&[leaf_with(&[])], &root(), "example.com", now()),
        Err(ChainError::HostnameMismatch)
    );
    let critical = extension(&[0x55, 0x1d, 0x63], true, vec![5, 0]);
    assert_eq!(
        verdict(&[leaf_with(&[critical, names.clone()])], &root(), "example.com", now()),
        Err(ChainError::UnhandledCriticalExtension)
    );
    assert_eq!(
        verdict(&[leaf_with(&[names.clone(), names])], &root(), "example.com", now()),
        Err(ChainError::DuplicateExtension)
    );
}

#[test]
fn issuers_are_checked() {
    let leaf = certificate("middle", &key(3), "leaf", &key(2), &[dns_names(&["example.com"])]);
    let middle = |extensions: &[Vec<u8>]| certificate("root", &key(1), "middle", &key(3), extensions);
    assert_eq!(
        verdict(&[leaf.clone(), middle(&[])], &root(), "example.com", now()),
        Err(ChainError::IssuerNotCa)
    );
    assert_eq!(
        verdict(&[leaf.clone(), middle(&[ca(None), key_usage(0x80, 7)])], &root(), "example.com", now()),
        Err(ChainError::NoKeyCertSign)
    );
    assert_eq!(
        verdict(&[leaf.clone(), middle(&[ca(None), key_usage(0x04, 2)])], &root(), "example.com", now()),
        Ok(())
    );
    assert_eq!(
        verdict(&[leaf.clone(), middle(&[ca(None), client_auth()])], &root(), "example.com", now()),
        Err(ChainError::NoServerAuth)
    );
    let lower = certificate("middle", &key(3), "lower", &key(4), &[ca(None)]);
    let deep = certificate("lower", &key(4), "leaf", &key(2), &[dns_names(&["example.com"])]);
    assert_eq!(
        verdict(&[deep.clone(), lower.clone(), middle(&[ca(Some(0))])], &root(), "example.com", now()),
        Err(ChainError::PathLenExceeded)
    );
    assert_eq!(
        verdict(&[deep, lower, middle(&[ca(Some(1))])], &root(), "example.com", now()),
        Ok(())
    );
}

#[test]
fn names_are_constrained() {
    let leaf = certificate("middle", &key(3), "leaf", &key(2), &[dns_names(&["www.example.com"])]);
    let middle = |value: Vec<u8>| {
        certificate(
            "root",
            &key(1),
            "middle",
            &key(3),
            &[ca(None), extension(&[0x55, 0x1d, 0x1e], true, value)],
        )
    };
    let host = "www.example.com";
    assert_eq!(
        verdict(&[leaf.clone(), middle(constraints(&["example.com"], &[]))], &root(), host, now()),
        Ok(())
    );
    assert_eq!(
        verdict(&[leaf.clone(), middle(constraints(&["example.org"], &[]))], &root(), host, now()),
        Err(ChainError::NameConstraintViolation)
    );
    assert_eq!(
        verdict(&[leaf.clone(), middle(constraints(&[], &["www.example.com"]))], &root(), host, now()),
        Err(ChainError::NameConstraintViolation)
    );
    // An anchor's constraints bind too.
    let value = constraints(&["example.org"], &[]);
    let direct = leaf_with(&[dns_names(&[host])]);
    let cert = Cert::parse(&direct).unwrap();
    let root_der = root();
    let anchor = Cert::parse(&root_der).unwrap();
    let constrained = TrustAnchor::with_name_constraints(
        anchor.tbs.names.subject.as_der(),
        anchor.tbs.spki,
        &value,
    )
    .unwrap();
    assert_eq!(
        Chain::new(&[cert]).validate(&[constrained], now(), host.as_bytes()),
        Err(ChainError::NameConstraintViolation)
    );
    // So do constraints that were read before.
    for (value, expected) in [
        (value.clone(), Err(ChainError::NameConstraintViolation)),
        (constraints(&["example.com"], &[]), Ok(())),
    ] {
        let prepared = PreparedNameConstraints::parse(&value).unwrap();
        let bound = TrustAnchor::with_prepared_constraints(
            anchor.tbs.names.subject.as_der(),
            anchor.tbs.spki,
            &prepared,
        );
        assert_eq!(Chain::new(&[cert]).validate(&[bound], now(), host.as_bytes()), expected);
    }
    let free = TrustAnchor::unconstrained(anchor.tbs.names.subject.as_der(), anchor.tbs.spki);
    assert_eq!(Chain::new(&[cert]).validate(&[free], now(), host.as_bytes()), Ok(()));
}

#[test]
fn prepared_constraints_allow_the_same_names() {
    let mut exts = seq(&[dns_names(&["www.example.com"])]);
    exts.drain(..2);
    let below = vec![Profile::parse(&exts).unwrap()];
    for (value, ok) in [
        (constraints(&["example.com"], &[]), true),
        (constraints(&["example.org"], &[]), false),
        (constraints(&[], &["example.com"]), false),
        (constraints(&[".example.com"], &["example.org"]), true),
    ] {
        let prepared = PreparedNameConstraints::parse(&value).unwrap();
        let parsed = NameConstraints::parse(&value).unwrap();
        let direct = shin::identity::chain::extensions::check_name_constraints(&parsed, &below);
        assert_eq!(prepared.check_prepared_name_constraints(&below), direct);
        assert_eq!(direct.is_ok(), ok);
        assert!(!prepared.has_unsupported());
    }
    let prepared = PreparedNameConstraints::parse(&constraints(&["a", "b"], &["c"])).unwrap();
    assert_eq!(prepared.permitted_dns(), &vec![b"a".to_vec(), b"b".to_vec()]);
    assert_eq!(prepared.excluded_dns(), &vec![b"c".to_vec()]);
    assert!(prepared.permitted_ip().is_empty());
    assert!(prepared.excluded_ip().is_empty());
}

#[test]
fn chains_are_bounded() {
    let leaf = leaf_with(&[dns_names(&["example.com"])]);
    assert_eq!(verdict(&[], &root(), "example.com", now()), Err(ChainError::Empty));
    let many = vec![leaf; 11];
    assert_eq!(verdict(&many, &root(), "example.com", now()), Err(ChainError::ChainTooLong));
}

#[test]
fn a_certificate_says_what_was_signed() {
    let der = root();
    let cert = Cert::parse(&der).unwrap();
    assert_eq!(cert.tbs.version, 3);
    assert_eq!(cert.tbs.names.subject.as_der(), &name("root")[2..]);
    assert_eq!(cert.tbs.spki.algorithm, PublicKey::Ed25519);
    assert_eq!(cert.tbs.signature_alg, Signature::Ed25519);
    assert_eq!(cert.verify_signature(&cert.tbs.spki), Ok(()));
    let other_der = certificate("root", &key(8), "root", &key(8), &[ca(None)]);
    let other = Cert::parse(&other_der).unwrap();
    assert_eq!(cert.verify_signature(&other.tbs.spki), Err(VerifyError::Failed));
    assert!(key(1).matches_spki(&cert.tbs.spki));
    assert!(!key(2).matches_spki(&cert.tbs.spki));
    assert!(key(1).matches_x509_chain(&[der.clone()]));
    assert!(!key(1).matches_x509_chain(&[der.clone(), vec![1]]));
    assert!(!key(1).matches_x509_chain(&[]));
    let mut longer = der.clone();
    longer.push(0);
    assert_eq!(Cert::parse(&longer).err(), Some(CertError::Der(DerError::Trailing)));
    assert!(Cert::parse(&der[..der.len() - 1]).is_err());
}

#[test]
fn leaf_keys_come_from_certificates_and_raw_keys() {
    let der = root();
    let raw = spki(&key(1));
    let sig = key(1).sign(b"m").unwrap();
    let (lk, pinned) = peer::x509_leaf_key(&der).unwrap();
    assert_eq!(pinned, raw);
    assert_eq!(lk.verify(0x0807, b"m", &sig), Ok(()));
    assert_eq!(lk.verify(0x0807, b"n", &sig), Err(Error::BadCertificateVerify));
    assert_eq!(lk.verify(0x0403, b"m", &sig), Err(Error::UnsupportedSigScheme));
    assert_eq!(peer::raw_public_key_leaf(&raw).unwrap().raw, lk.raw);
    assert_eq!(peer::raw_public_key_leaf(&raw[1..]).err(), Some(Error::Spki));
    let (parsed, parsed_spki) = LeafKey::parse_x509(&der).unwrap();
    assert_eq!(parsed.kind(), LeafKeyKind::Ed25519);
    assert_eq!(parsed_spki, &raw[..]);
    assert_eq!(LeafKey::from_spki(&raw).unwrap().raw(), parsed.raw());
    assert!(LeafKey::from_raw(LeafKeyKind::Ed25519, &[0; 31]).is_err());
}

#[test]
fn subject_public_keys_round_trip() {
    let k = SubjectPublicKey::Ed25519([3; 32]);
    let der = k.encode().unwrap();
    assert_eq!(der.len(), 44);
    assert_eq!(SubjectPublicKey::decode(&der), Ok(k));
    let mut point = vec![4; 65];
    point[1] = 9;
    let p = SubjectPublicKey::EcdsaP256(point.clone());
    assert_eq!(SubjectPublicKey::decode(&p.encode().unwrap()), Ok(p));
    assert_eq!(SubjectPublicKey::EcdsaP256(vec![4; 64]).encode(), Err(SpkiError::BadLength));
    assert_eq!(SubjectPublicKey::decode(&[0; 44]), Err(SpkiError::BadPrefix));
    assert_eq!(SubjectPublicKey::decode(&[0; 43]), Err(SpkiError::BadLength));
    let info = SubjectPublicKeyInfo::parse_standalone(&der).unwrap();
    assert_eq!(info.subject_public_key, &[3u8; 32][..]);
}

#[test]
fn der_is_strict() {
    assert_eq!(Tlv::parse_one(&[0x04, 0x81, 0x05]).err(), Some(DerError::BadLength));
    assert_eq!(Tlv::parse_one(&[0x04, 2, 1]).err(), Some(DerError::Underflow));
    let (t, rest) = Tlv::parse_one(&[0x04, 1, 9, 7]).unwrap();
    assert_eq!((t.contents, rest), (&[9u8][..], &[7u8][..]));
    assert!(Uint::from_bytes(&[0x80]).is_err());
    assert!(Uint::from_bytes(&[0, 1]).is_err());
    assert_eq!(Uint::from_bytes(&[0, 0x80]).unwrap().to_u64(), Ok(128));
    assert!(Oid::from_bytes(&[0x80]).is_err());
    assert!(Oid::from_bytes(&[0x2b, 0x65]).unwrap().is(&[0x2b, 0x65]));
    assert_eq!(BitString::from_bytes(&[7, 0x80]).unwrap().unused_bits(), 7);
    assert!(BitString::from_bytes(&[7, 0x81]).is_err());
    let der = tlv(0x01, &[0xff]);
    assert_eq!(Reader::new(&der).read_bool(), Ok(true));
    let der = tlv(0x01, &[1]);
    assert!(Reader::new(&der).read_bool().is_err());
}

#[test]
fn times_are_read() {
    let utc = Tag(Tag::UTC_TIME);
    let general = Tag(Tag::GENERALIZED_TIME);
    assert_eq!(UnixTime::from_x509(utc, b"700101000000Z").unwrap().0, 0);
    assert_eq!(UnixTime::from_x509(utc, b"491231235959Z").unwrap().0, 2_524_607_999);
    assert_eq!(UnixTime::from_x509(general, b"20500101000000Z").unwrap().0, 2_524_608_000);
    assert_eq!(UnixTime::from_x509(utc, b"000229000000Z").unwrap().0, 951_782_400);
    assert!(UnixTime::from_x509(utc, b"010229000000Z").is_err());
    assert!(UnixTime::from_x509(utc, b"7001010000Z").is_err());
    assert_eq!(UnixTime::from_secs(5).as_secs(), Some(5));
}

#[test]
fn extensions_are_read_one_by_one() {
    let mut list = seq(&[ca(Some(3)), dns_names(&["a.example"])]);
    list.drain(..2);
    let mut it = ExtensionIter::new(&list);
    let first = it.next().unwrap().unwrap();
    assert!(first.critical);
    assert_eq!(
        BasicConstraints::parse(first.value).unwrap(),
        BasicConstraints { ca: true, path_len_constraint: Some(3) }
    );
    let second = it.next().unwrap().unwrap();
    assert!(!second.critical);
    let names = GeneralName::parse_alt_names(second.value).unwrap();
    assert!(matches!(names[0], GeneralName::DnsName(n) if n == b"a.example"));
    assert!(names[0] == GeneralName::DnsName(b"a.example"));
    assert!(names[0] != GeneralName::IpAddress(b"a.example"));
    assert!(it.next().is_none());
    assert!(ExtensionIter::find(&list, &[0x55, 0x1d, 0x11]).unwrap().is_some());
    assert!(ExtensionIter::find(&list, &[0x55, 0x1d, 0x0f]).unwrap().is_none());
    let usage = KeyUsage::parse(&tlv(0x03, &[1, 0x06])).unwrap();
    assert!(usage.has(KeyUsage::KEY_CERT_SIGN));
    assert!(!usage.has(KeyUsage::DIGITAL_SIGNATURE));
    let ekus = seq(&[tlv(0x06, &[0x2b, 6, 1, 5, 5, 7, 3, 1])]);
    let mut it = ExtendedKeyUsages::parse(&ekus).unwrap().iter();
    assert!(it.next().unwrap().unwrap().is(&[0x2b, 6, 1, 5, 5, 7, 3, 1]));
    assert!(it.next().is_none());
}

#[test]
fn names_compare_without_case_and_spaces() {
    let contents = |cn: &str| name(cn)[2..].to_vec();
    let a = contents("Example  Name");
    let b = contents("example name ");
    let c = contents("example mane");
    let da = DistinguishedName::parse(&a).unwrap();
    let db = DistinguishedName::parse(&b).unwrap();
    let dc = DistinguishedName::parse(&c).unwrap();
    assert!(da.equivalent(db));
    assert!(!da.equivalent(dc));
    assert!(NameKey::new(&a).unwrap().equals(&NameKey::new(&b).unwrap()));
    assert!(!NameKey::new(&a).unwrap().equals(&NameKey::new(&c).unwrap()));
    assert!(DistinguishedName::parse(&a[..a.len() - 1]).is_err());
}

#[test]
fn relative_names_compare_as_multisets() {
    let attribute = |v: &str| seq(&[tlv(0x06, &[0x55, 4, 3]), tlv(0x0c, v.as_bytes())]);
    let (a, b) = (attribute("a"), attribute("b"));
    let ab = [a.clone(), b.clone()].concat();
    let ba = [b.clone(), a.clone()].concat();
    let aa = [a.clone(), a.clone()].concat();
    assert!(rdns_equal(&ab, &ba) && rdns_equal(&ba, &ab));
    assert!(rdns_equal(&aa, &aa));
    assert!(!rdns_equal(&aa, &ab) && !rdns_equal(&ab, &aa));
    assert!(!rdns_equal(&a, &aa));
    assert!(!rdns_equal(&[], &[]));
    assert!(!rdns_equal(&a.repeat(65), &a.repeat(65)));
}

#[test]
fn strings_are_prepared_with_the_outside_tables() {
    let prepared: String = Preparation::prepare(&"Stra\u{df}e \u{ff21}".chars().collect())
        .into_iter()
        .collect();
    assert!(prepared.contains("strasse"));
    assert!(prepared.contains('a'));
    assert!(!prepared.contains('\u{ff21}'));
    assert!(Preparation::is_valid(&"plain".chars().collect()));
    assert!(!Preparation::is_valid(&"\u{378}".chars().collect()));
}

#[test]
fn hostnames_match() {
    assert!(Names::dns_matches(b"Example.com", b"example.COM."));
    assert!(Names::dns_matches(b"*.example.com", b"a.example.com"));
    assert!(!Names::dns_matches(b"*.example.com", b"example.com"));
    assert!(!Names::dns_matches(b"*.com", b"a.example.com"));
    assert!(Names::dns_matches(b"f*o.example.com", b"foo.example.com"));
    assert!(Names::is_ip_literal(b"127.0.0.1"));
    assert!(Hostname::new(b"a.example.com").matches_dns(b"*.example.com"));
    assert!(!Hostname::new(b"a.b.example.com").matches_dns(b"*.example.com"));
    assert_eq!(Hostname::new(b"127.0.0.1").parse_ip().unwrap().as_slice(), &[127, 0, 0, 1][..]);
    let six = Hostname::new(b"2001:db8::1").parse_ip().unwrap();
    assert_eq!(
        six.as_slice(),
        &[0x20, 0x01, 0x0d, 0xb8, 0, 0, 0, 0, 0, 0, 0, 0, 0, 0, 0, 1][..]
    );
    assert!(Hostname::new(b"256.0.0.1").parse_ip().is_none());
    assert!(Hostname::new(b"1:2").parse_ip().is_none());
    assert!(Hostname::new(&[10, 0, 0, 1]).matches_ip(&[10, 0, 0, 1]));
    assert!(Hostname::new(b"example.com").is_valid_reference());
    assert!(!Hostname::new(b"").is_valid_reference());
}

#[test]
fn subtrees_hold_names() {
    assert!(GeneralName::dns_in_subtree(b"a.example.com", b"example.com"));
    assert!(GeneralName::dns_in_subtree(b"example.com", b"example.com"));
    assert!(!GeneralName::dns_in_subtree(b"example.com", b".example.com"));
    assert!(!GeneralName::dns_in_subtree(b"badexample.com", b"example.com"));
    assert!(GeneralName::ip_in_subtree(&[10, 1, 2, 3], &[10, 0, 0, 0, 255, 0, 0, 0]));
    assert!(!GeneralName::ip_in_subtree(&[11, 1, 2, 3], &[10, 0, 0, 0, 255, 0, 0, 0]));
    assert!(GeneralName::ip_in_subtree(&[1, 2, 3, 4], &[0; 8]));
}

#[test]
fn certificate_types_have_code_points() {
    assert_eq!(CertificateType::from_wire_id(0), Some(CertificateType::X509));
    assert_eq!(CertificateType::from_wire_id(2), Some(CertificateType::RawPublicKey));
    assert_eq!(CertificateType::from_wire_id(1), None);
    assert_eq!(
        Signature::Ed25519.verification_profile(PublicKey::Ed25519),
        Ok(VerificationProfile::Ed25519)
    );
    assert_eq!(
        Signature::Ed25519.verification_profile(PublicKey::Ec(NamedCurve::P256)),
        Err(VerifyError::AlgorithmMismatch)
    );
}
