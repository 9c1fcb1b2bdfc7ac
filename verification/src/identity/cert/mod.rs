//! X.509 certificates.

use vstd::prelude::*;
use vstd::slice::slice_subrange;
use vstd::std_specs::convert::FromSpecImpl;

use crate::crypto::hash::hashable;
use crate::crypto::sig::{ring_verify, signature_valid};
use crate::identity::asn1::{
    after_optional, after_tlv, der_octets, der_optional, der_optional_bit_string, der_tagged,
    der_tlv, der_uint, der_whole, read_whole, uint_value, DerError, Reader, Tag, Uint,
};
use crate::identity::time::{lemma_x509_time_bound, x509_time, UnixTime};

use self::algorithm::{
    algorithm_identifier, public_key_algorithm, signature_algorithm, verification, IdentifierView, PublicKey,
    RawIdentifier,
};
use self::dn::{name_key, rdns, DistinguishedName, NameKey};

pub mod algorithm;
pub mod dn;
pub mod ext;
pub mod laws;
pub mod naming;
pub mod schemes;
pub mod words;

verus! {

pub const OID_SHA256_WITH_RSA: [u8; 9] = [0x2a, 0x86, 0x48, 0x86, 0xf7, 0x0d, 0x01, 0x01, 0x0b];

pub const OID_SHA384_WITH_RSA: [u8; 9] = [0x2a, 0x86, 0x48, 0x86, 0xf7, 0x0d, 0x01, 0x01, 0x0c];

pub const OID_SHA512_WITH_RSA: [u8; 9] = [0x2a, 0x86, 0x48, 0x86, 0xf7, 0x0d, 0x01, 0x01, 0x0d];

pub const OID_ECDSA_SHA256: [u8; 8] = [0x2a, 0x86, 0x48, 0xce, 0x3d, 0x04, 0x03, 0x02];

pub const OID_ECDSA_SHA384: [u8; 8] = [0x2a, 0x86, 0x48, 0xce, 0x3d, 0x04, 0x03, 0x03];

pub const OID_ED25519: [u8; 3] = [0x2b, 0x65, 0x70];

pub const OID_RSA_PSS: [u8; 9] = [0x2a, 0x86, 0x48, 0x86, 0xf7, 0x0d, 0x01, 0x01, 0x0a];

pub const OID_RSA_ENCRYPTION: [u8; 9] = [0x2a, 0x86, 0x48, 0x86, 0xf7, 0x0d, 0x01, 0x01, 0x01];

pub const OID_EC_PUBLIC_KEY: [u8; 7] = [0x2a, 0x86, 0x48, 0xce, 0x3d, 0x02, 0x01];

pub const OID_P256_CURVE: [u8; 8] = [0x2a, 0x86, 0x48, 0xce, 0x3d, 0x03, 0x01, 0x07];

pub const OID_P384_CURVE: [u8; 5] = [0x2b, 0x81, 0x04, 0x00, 0x22];

/// Why bytes are not an acceptable certificate.
#[derive(Debug, Clone, Copy, PartialEq, Eq, Structural)]
pub enum Error {
    Der(DerError),
    BadVersion,
    BadValidity,
    BadAlgorithm,
    BadSerial,
    BadName,
    DuplicateExtension,
    TooManyEntries,
}

impl From<DerError> for Error {
    fn from(e: DerError) -> (r: Self) {
        Error::Der(e)
    }
}

impl FromSpecImpl<DerError> for Error {
    open spec fn obeys_from_spec() -> bool {
        true
    }

    open spec fn from_spec(e: DerError) -> Self {
        Error::Der(e)
    }
}

/// Why a signature does not verify.
#[derive(Debug, Clone, Copy, PartialEq, Eq, Structural)]
pub enum VerifyError {
    UnsupportedAlgorithm,
    AlgorithmMismatch,
    UnsupportedCurve,
    Failed,
}

/// A DER error as a certificate error.
pub open spec fn der<T>(r: Result<T, DerError>) -> Result<T, Error> {
    match r {
        Ok(v) => Ok(v),
        Err(e) => Err(Error::Der(e)),
    }
}

/// A DER error as a certificate error.
pub(crate) fn lift<T>(r: Result<T, DerError>) -> (s: Result<T, Error>)
    ensures
        s == der(r),
{
    match r {
        Ok(v) => Ok(v),
        Err(e) => Err(Error::from(e)),
    }
}

/// A public key in a certificate: its type, its bytes, and the whole encoding.
#[verifier::ext_equal]
pub struct SpkiView {
    pub algorithm: PublicKey,
    pub key: Seq<u8>,
    pub der: Seq<u8>,
}

/// The key in the contents of a subject public key info.
pub open spec fn spki_contents(c: Seq<u8>, der: Seq<u8>) -> Result<SpkiView, Error> {
    match algorithm_identifier(c) {
        Err(e) => Err(e),
        Ok(id) => match public_key_algorithm(id) {
            Err(e) => Err(e),
            Ok(algorithm) => match der_octets(after_tlv(c)) {
                Err(e) => Err(Error::Der(e)),
                Ok(key) => if after_tlv(after_tlv(c)).len() > 0 {
                    Err(Error::Der(DerError::Trailing))
                } else {
                    Ok(SpkiView { algorithm, key, der })
                },
            },
        },
    }
}

/// The bytes of the element at the front of `s`.
pub open spec fn whole_tlv(s: Seq<u8>) -> Seq<u8> {
    s.take(s.len() - after_tlv(s).len())
}

/// The subject public key info at the front of `s`.
#[verifier::opaque]
pub open spec fn spki_at(s: Seq<u8>) -> Result<SpkiView, Error> {
    match der_tagged(s, Tag::SEQUENCE) {
        Err(e) => Err(Error::Der(e)),
        Ok(c) => spki_contents(c, whole_tlv(s)),
    }
}

/// The subject public key info that is all of `s`.
#[verifier::opaque]
pub open spec fn spki_whole(s: Seq<u8>) -> Result<SpkiView, Error> {
    match der_whole(s, Tag::SEQUENCE) {
        Err(e) => Err(Error::Der(e)),
        Ok(c) => spki_contents(c, s),
    }
}

/// When a certificate is valid: the times of its first and last second.
#[derive(Debug, Clone, Copy, PartialEq, Eq, Structural)]
pub struct Validity {
    pub not_before: UnixTime,
    pub not_after: UnixTime,
}

/// The validity in the contents of its encoding.
#[verifier::opaque]
pub open spec fn validity(c: Seq<u8>) -> Result<Validity, Error> {
    match der_tlv(c) {
        Err(e) => Err(Error::Der(e)),
        Ok((before_tag, before, rest)) => match der_tlv(rest) {
            Err(e) => Err(Error::Der(e)),
            Ok((after_tag, after, end)) => if end.len() > 0 {
                Err(Error::Der(DerError::Trailing))
            } else {
                match (x509_time(before_tag, before), x509_time(after_tag, after)) {
                    (Some(a), Some(b)) => if a > b {
                        Err(Error::BadValidity)
                    } else {
                        Ok(Validity { not_before: UnixTime(a as i64), not_after: UnixTime(b as i64) })
                    },
                    _ => Err(Error::BadValidity),
                }
            },
        },
    }
}

impl Validity {
    fn parse(inner: &[u8]) -> (r: Result<Self, Error>)
        ensures
            r == validity(inner@),
    {
        reveal(validity);
        let mut reader = Reader::new(inner);
        let nb = lift(reader.read_tlv())?;
        let na = lift(reader.read_tlv())?;
        lift(reader.finish())?;
        let not_before = UnixTime::from_x509(nb.tag, nb.contents)?;
        let not_after = UnixTime::from_x509(na.tag, na.contents)?;
        if not_before.0 > not_after.0 {
            return Err(Error::BadValidity);
        }
        Ok(Self { not_before, not_after })
    }
}

/// What is signed in a certificate.
#[verifier::ext_equal]
pub struct TbsView {
    pub version: u8,
    pub serial: Seq<u8>,
    pub signature_alg: algorithm::Signature,
    pub issuer: Seq<u8>,
    pub issuer_key: Seq<u8>,
    pub subject: Seq<u8>,
    pub validity: Validity,
    pub spki: SpkiView,
    pub extensions: Option<Seq<u8>>,
}

/// The version at the front of `s`: 1 where it is absent, and 2 or 3 otherwise.
#[verifier::opaque]
pub open spec fn tbs_version(s: Seq<u8>) -> Result<u8, Error> {
    match der_optional(s, 0xa0) {
        Err(e) => Err(Error::Der(e)),
        Ok(None) => Ok(1),
        Ok(Some(c)) => match der_uint(c) {
            Err(e) => Err(Error::Der(e)),
            Ok(n) => match uint_value(n) {
                Err(e) => Err(Error::Der(e)),
                Ok(v) => if after_tlv(c).len() > 0 {
                    Err(Error::Der(DerError::Trailing))
                } else if v == 0 || v > 2 {
                    Err(Error::BadVersion)
                } else {
                    Ok((v + 1) as u8)
                },
            },
        },
    }
}

/// The serial number at the front of `s`: positive and of at most 20 octets.
#[verifier::opaque]
pub open spec fn tbs_serial(s: Seq<u8>) -> Result<Seq<u8>, Error> {
    match der_uint(s) {
        Err(e) => Err(Error::Der(e)),
        Ok(n) => if n == seq![0u8] || n.len() > 20 {
            Err(Error::BadSerial)
        } else {
            Ok(n)
        },
    }
}

/// The signature algorithm at the front of `s`, and its identifier.
#[verifier::opaque]
pub open spec fn tbs_algorithm(s: Seq<u8>) -> Result<(algorithm::Signature, IdentifierView), Error> {
    match algorithm_identifier(s) {
        Err(e) => Err(e),
        Ok(id) => match signature_algorithm(id) {
            Err(e) => Err(e),
            Ok(a) => Ok((a, id)),
        },
    }
}

/// The issuer at the front of `s`, and its digest.
#[verifier::opaque]
pub open spec fn tbs_issuer(s: Seq<u8>) -> Result<(Seq<u8>, Seq<u8>), Error> {
    match der_tagged(s, Tag::SEQUENCE) {
        Err(e) => Err(Error::Der(e)),
        Ok(c) => match name_key(c) {
            Err(e) => Err(e),
            Ok(k) => Ok((c, k)),
        },
    }
}

/// The validity at the front of `s`.
#[verifier::opaque]
pub open spec fn tbs_validity(s: Seq<u8>) -> Result<Validity, Error> {
    match der_tagged(s, Tag::SEQUENCE) {
        Err(e) => Err(Error::Der(e)),
        Ok(c) => validity(c),
    }
}

/// The subject at the front of `s`.
#[verifier::opaque]
pub open spec fn tbs_subject(s: Seq<u8>) -> Result<Seq<u8>, Error> {
    match der_tagged(s, Tag::SEQUENCE) {
        Err(e) => Err(Error::Der(e)),
        Ok(c) => match rdns(c, false) {
            Err(e) => Err(e),
            Ok(_) => Ok(c),
        },
    }
}

/// The extensions at the front of `s`, where they are present.
#[verifier::opaque]
pub open spec fn tbs_extensions(s: Seq<u8>) -> Result<Option<Seq<u8>>, Error> {
    match der_optional(s, 0xa3) {
        Err(e) => Err(Error::Der(e)),
        Ok(None) => Ok(None),
        Ok(Some(outer)) => match der_whole(outer, Tag::SEQUENCE) {
            Err(e) => Err(Error::Der(e)),
            Ok(c) => Ok(Some(c)),
        },
    }
}

/// What ends `s`: unique identifiers, which version 1 does not have, and
/// extensions, which only version 3 has.
#[verifier::opaque]
pub open spec fn tbs_end(s: Seq<u8>, version: u8) -> Result<Option<Seq<u8>>, Error> {
    let after_issuer = after_optional(s, 0x81);
    let after_subject = after_optional(after_issuer, 0x82);
    match der_optional_bit_string(s, 0x81) {
        Err(e) => Err(Error::Der(e)),
        Ok(issuer_uid) => match der_optional_bit_string(after_issuer, 0x82) {
            Err(e) => Err(Error::Der(e)),
            Ok(subject_uid) => match tbs_extensions(after_subject) {
                Err(e) => Err(e),
                Ok(extensions) => if extensions is Some && version != 3 {
                    Err(Error::BadVersion)
                } else if (issuer_uid is Some || subject_uid is Some) && version < 2 {
                    Err(Error::BadVersion)
                } else if after_optional(after_subject, 0xa3).len() > 0 {
                    Err(Error::Der(DerError::Trailing))
                } else {
                    Ok(extensions)
                },
            },
        },
    }
}

/// What is signed in a certificate, from its contents, and the identifier of the
/// signature algorithm.
#[verifier::opaque]
pub open spec fn tbs_fields(s: Seq<u8>) -> Result<(TbsView, IdentifierView), Error> {
    let at_serial = after_optional(s, 0xa0);
    let at_algorithm = after_tlv(at_serial);
    let at_issuer = after_tlv(at_algorithm);
    let at_validity = after_tlv(at_issuer);
    let at_subject = after_tlv(at_validity);
    let at_spki = after_tlv(at_subject);
    let at_end = after_tlv(at_spki);
    match tbs_version(s) {
        Err(e) => Err(e),
        Ok(version) => match tbs_serial(at_serial) {
            Err(e) => Err(e),
            Ok(serial) => match tbs_algorithm(at_algorithm) {
                Err(e) => Err(e),
                Ok((signature_alg, id)) => match tbs_issuer(at_issuer) {
                    Err(e) => Err(e),
                    Ok((issuer, issuer_key)) => match tbs_validity(at_validity) {
                        Err(e) => Err(e),
                        Ok(validity) => match tbs_subject(at_subject) {
                            Err(e) => Err(e),
                            Ok(subject) => match spki_at(at_spki) {
                                Err(e) => Err(e),
                                Ok(spki) => match tbs_end(at_end, version) {
                                    Err(e) => Err(e),
                                    Ok(extensions) => Ok(
                                        (
                                            TbsView {
                                                version,
                                                serial,
                                                signature_alg,
                                                issuer,
                                                issuer_key,
                                                subject,
                                                validity,
                                                spki,
                                                extensions,
                                            },
                                            id,
                                        ),
                                    ),
                                },
                            },
                        },
                    },
                },
            },
        },
    }
}

/// A certificate: the bytes that are signed, what they say, and the signature.
#[verifier::ext_equal]
pub struct CertView {
    pub tbs_der: Seq<u8>,
    pub tbs: TbsView,
    pub signature: Seq<u8>,
}

/// The certificate that is all of `s`: the algorithm outside what is signed is the
/// one inside.
#[verifier::opaque]
pub open spec fn certificate(s: Seq<u8>) -> Result<CertView, Error> {
    match der_whole(s, Tag::SEQUENCE) {
        Err(e) => Err(Error::Der(e)),
        Ok(top) => match der_tagged(top, Tag::SEQUENCE) {
            Err(e) => Err(Error::Der(e)),
            Ok(c) => match tbs_fields(c) {
                Err(e) => Err(e),
                Ok((tbs, inner)) => {
                    let at_algorithm = after_tlv(top);
                    let at_signature = after_tlv(at_algorithm);
                    match algorithm_identifier(at_algorithm) {
                        Err(e) => Err(e),
                        Ok(outer) => if outer != inner {
                            Err(Error::BadAlgorithm)
                        } else {
                            match der_octets(at_signature) {
                                Err(e) => Err(Error::Der(e)),
                                Ok(signature) => if after_tlv(at_signature).len() > 0 {
                                    Err(Error::Der(DerError::Trailing))
                                } else {
                                    Ok(CertView { tbs_der: whole_tlv(top), tbs, signature })
                                },
                            }
                        },
                    }
                },
            },
        },
    }
}

/// A public key in a certificate.
#[derive(Debug, Clone, Copy)]
pub struct SubjectPublicKeyInfo<'a> {
    pub algorithm: PublicKey,
    pub subject_public_key: &'a [u8],
    pub raw_der: &'a [u8],
}

impl<'a> View for SubjectPublicKeyInfo<'a> {
    type V = SpkiView;

    open spec fn view(&self) -> SpkiView {
        SpkiView { algorithm: self.algorithm, key: self.subject_public_key@, der: self.raw_der@ }
    }
}

impl<'a> SubjectPublicKeyInfo<'a> {
    /// Reads a subject public key info that is all of `spki_der`.
    pub fn parse_standalone(spki_der: &'a [u8]) -> (r: Result<Self, Error>)
        ensures
            match spki_whole(spki_der@) {
                Ok(k) => r is Ok && r->Ok_0@ == k,
                Err(e) => r is Err && r->Err_0 == e,
            },
    {
        reveal(spki_whole);
        let inner = lift(read_whole(spki_der, Tag(Tag::SEQUENCE)))?;
        Self::parse_contents(inner, spki_der)
    }

    fn parse_contents(inner: &'a [u8], raw_der: &'a [u8]) -> (r: Result<Self, Error>)
        ensures
            match spki_contents(inner@, raw_der@) {
                Ok(k) => r is Ok && r->Ok_0@ == k,
                Err(e) => r is Err && r->Err_0 == e,
            },
    {
        let mut reader = Reader::new(inner);
        let raw = RawIdentifier::parse(&mut reader)?;
        let algorithm = PublicKey::parse(raw)?;
        let subject_public_key = lift(reader.read_octets())?;
        lift(reader.finish())?;
        Ok(Self { algorithm, subject_public_key, raw_der })
    }

    fn parse_inline(reader: &mut Reader<'a>) -> (r: Result<Self, Error>)
        ensures
            match spki_at(old(reader)@) {
                Ok(k) => r is Ok && r->Ok_0@ == k,
                Err(e) => r is Err && r->Err_0 == e,
            },
            final(reader)@ == after_tlv(old(reader)@),
    {
        reveal(spki_at);
        let before = reader.bytes_remaining();
        let inner = lift(reader.read_tagged(Tag(Tag::SEQUENCE)))?;
        let raw_der = full_tlv(before, reader.bytes_remaining());
        Self::parse_contents(inner, raw_der)
    }
}

/// The bytes of the element at the front of `bytes`, behind which `rest` follows.
fn full_tlv<'a>(bytes: &'a [u8], rest: &'a [u8]) -> (r: &'a [u8])
    requires
        rest@ == after_tlv(bytes@),
    ensures
        r@ == whole_tlv(bytes@),
{
    let n: usize = bytes.len() - rest.len();
    let r = slice_subrange(bytes, 0, n);
    assert(r@ =~= bytes@.take(n as int));
    r
}

/// Issuer and subject.
#[derive(Debug, Clone, Copy)]
pub struct Names<'a> {
    pub issuer: DistinguishedName<'a>,
    pub subject: DistinguishedName<'a>,
    pub issuer_key: NameKey,
}

/// What is signed in a certificate.
#[derive(Debug, Clone, Copy)]
pub struct Tbs<'a> {
    pub version: u8,
    pub serial: Uint<'a>,
    pub signature_alg: algorithm::Signature,
    pub names: Names<'a>,
    pub validity: Validity,
    pub spki: SubjectPublicKeyInfo<'a>,
    pub extensions_der: Option<&'a [u8]>,
}

impl<'a> View for Tbs<'a> {
    type V = TbsView;

    open spec fn view(&self) -> TbsView {
        TbsView {
            version: self.version,
            serial: self.serial@,
            signature_alg: self.signature_alg,
            issuer: self.names.issuer@,
            issuer_key: self.names.issuer_key@,
            subject: self.names.subject@,
            validity: self.validity,
            spki: self.spki@,
            extensions: match self.extensions_der {
                Some(x) => Some(x@),
                None => None,
            },
        }
    }
}

/// A certificate's signature.
#[derive(Debug, Clone, Copy)]
pub struct Signature<'a> {
    pub bytes: &'a [u8],
}

/// A certificate.
#[derive(Debug, Clone, Copy)]
pub struct Cert<'a> {
    pub tbs_der: &'a [u8],
    pub tbs: Tbs<'a>,
    pub signature: Signature<'a>,
}

impl<'a> View for Cert<'a> {
    type V = CertView;

    open spec fn view(&self) -> CertView {
        CertView { tbs_der: self.tbs_der@, tbs: self.tbs@, signature: self.signature.bytes@ }
    }
}

/// Whether a certificate's signature verifies under a key, and why it does not.
pub open spec fn signed_by(
    tbs_der: Seq<u8>,
    algorithm: algorithm::Signature,
    signature: Seq<u8>,
    issuer: SpkiView,
) -> Result<(), VerifyError> {
    match verification(algorithm, issuer.algorithm) {
        Err(e) => Err(e),
        Ok(profile) => if signature_valid(profile, issuer.key, tbs_der, signature) {
            Ok(())
        } else {
            Err(VerifyError::Failed)
        },
    }
}

impl<'a> Cert<'a> {
    /// Reads a certificate that is all of `der`.
    pub fn parse(der: &'a [u8]) -> (r: Result<Self, Error>)
        ensures
            match certificate(der@) {
                Ok(c) => r is Ok && r->Ok_0@ == c,
                Err(e) => r is Err && r->Err_0 == e,
            },
    {
        reveal(certificate);
        let outer = lift(read_whole(der, Tag(Tag::SEQUENCE)))?;
        let mut top = Reader::new(outer);
        let tbs_contents = lift(top.read_tagged(Tag(Tag::SEQUENCE)))?;
        let tbs_der = full_tlv(outer, top.bytes_remaining());
        let (tbs, inner_signature_alg) = Self::parse_tbs(tbs_contents)?;
        let outer_signature_alg = RawIdentifier::parse(&mut top)?;
        if !inner_signature_alg.equals(&outer_signature_alg) {
            return Err(Error::BadAlgorithm);
        }
        let signature = lift(top.read_octets())?;
        lift(top.finish())?;
        Ok(Self { tbs_der, tbs, signature: Signature { bytes: signature } })
    }

    fn parse_tbs(tbs: &'a [u8]) -> (r: Result<(Tbs<'a>, RawIdentifier<'a>), Error>)
        ensures
            match tbs_fields(tbs@) {
                Ok((t, id)) => r is Ok && r->Ok_0.0@ == t && r->Ok_0.1@ == id,
                Err(e) => r is Err && r->Err_0 == e,
            },
    {
        reveal(tbs_fields);
        let mut r = Reader::new(tbs);
        let version: u8 = parse_version(&mut r)?;
        let serial = parse_serial(&mut r)?;
        let (signature_alg, raw_signature_alg) = parse_algorithm(&mut r)?;
        let (issuer, issuer_key) = parse_issuer(&mut r)?;
        let validity = parse_validity(&mut r)?;
        let subject = parse_subject(&mut r)?;
        let spki = SubjectPublicKeyInfo::parse_inline(&mut r)?;
        let extensions_der = parse_end(&mut r, version)?;
        let names = Names { issuer, subject, issuer_key };
        Ok(
            (
                Tbs { version, serial, signature_alg, names, validity, spki, extensions_der },
                raw_signature_alg,
            ),
        )
    }

    /// Verifies the signature under the issuer's key.
    pub fn verify_signature(&self, issuer_spki: &SubjectPublicKeyInfo<'_>) -> (r: Result<(), VerifyError>)
        requires
            hashable(self@.tbs_der),
        ensures
            r == signed_by(self@.tbs_der, self@.tbs.signature_alg, self@.signature, issuer_spki@),
    {
        self.signed().verify_signature(issuer_spki)
    }

    /// What it takes to verify the signature.
    pub fn signed(&self) -> (r: Signed<'a>)
        requires
            hashable(self@.tbs_der),
        ensures
            r@ == (self@.tbs_der, self@.tbs.signature_alg, self@.signature),
    {
        Signed {
            tbs_der: self.tbs_der,
            algorithm: self.tbs.signature_alg,
            signature: self.signature.bytes,
        }
    }
}

fn parse_version(r: &mut Reader<'_>) -> (v: Result<u8, Error>)
    ensures
        v == tbs_version(old(r)@),
        final(r)@ == after_optional(old(r)@, 0xa0),
{
    reveal(tbs_version);
    match lift(r.read_optional(Tag::context(0, true)))? {
        None => Ok(1),
        Some(inner) => {
            let mut vr = Reader::new(inner);
            let n = lift(vr.read_uint())?;
            let v: u64 = lift(n.to_u64())?;
            lift(vr.finish())?;
            if v > 2 || v == 0 {
                return Err(Error::BadVersion);
            }
            Ok(v as u8 + 1)
        },
    }
}

fn parse_serial<'a>(r: &mut Reader<'a>) -> (s: Result<Uint<'a>, Error>)
    ensures
        match tbs_serial(old(r)@) {
            Ok(n) => s is Ok && s->Ok_0@ == n,
            Err(e) => s is Err && s->Err_0 == e,
        },
        final(r)@ == after_tlv(old(r)@),
{
    reveal(tbs_serial);
    let serial = lift(r.read_uint())?;
    if serial.is_zero() || serial.as_bytes().len() > 20 {
        return Err(Error::BadSerial);
    }
    Ok(serial)
}

fn parse_algorithm<'a>(r: &mut Reader<'a>) -> (s: Result<(algorithm::Signature, RawIdentifier<'a>), Error>)
    ensures
        match tbs_algorithm(old(r)@) {
            Ok((a, id)) => s is Ok && s->Ok_0.0 == a && s->Ok_0.1@ == id,
            Err(e) => s is Err && s->Err_0 == e,
        },
        final(r)@ == after_tlv(old(r)@),
{
    reveal(tbs_algorithm);
    let raw = RawIdentifier::parse(r)?;
    let signature_alg = algorithm::Signature::parse(raw)?;
    Ok((signature_alg, raw))
}

fn parse_issuer<'a>(r: &mut Reader<'a>) -> (s: Result<(DistinguishedName<'a>, NameKey), Error>)
    ensures
        match tbs_issuer(old(r)@) {
            Ok((n, k)) => s is Ok && s->Ok_0.0@ == n && s->Ok_0.1@ == k,
            Err(e) => s is Err && s->Err_0 == e,
        },
        final(r)@ == after_tlv(old(r)@),
{
    reveal(tbs_issuer);
    let issuer_der = lift(r.read_tagged(Tag(Tag::SEQUENCE)))?;
    DistinguishedName::prepared(issuer_der)
}

fn parse_validity(r: &mut Reader<'_>) -> (s: Result<Validity, Error>)
    ensures
        s == tbs_validity(old(r)@),
        final(r)@ == after_tlv(old(r)@),
{
    reveal(tbs_validity);
    let inner = lift(r.read_tagged(Tag(Tag::SEQUENCE)))?;
    Validity::parse(inner)
}

fn parse_subject<'a>(r: &mut Reader<'a>) -> (s: Result<DistinguishedName<'a>, Error>)
    ensures
        match tbs_subject(old(r)@) {
            Ok(n) => s is Ok && s->Ok_0@ == n,
            Err(e) => s is Err && s->Err_0 == e,
        },
        final(r)@ == after_tlv(old(r)@),
{
    reveal(tbs_subject);
    let subject_der = lift(r.read_tagged(Tag(Tag::SEQUENCE)))?;
    DistinguishedName::parse(subject_der)
}

fn parse_end<'a>(r: &mut Reader<'a>, version: u8) -> (s: Result<Option<&'a [u8]>, Error>)
    ensures
        match tbs_end(old(r)@, version) {
            Ok(Some(x)) => s is Ok && s->Ok_0 is Some && s->Ok_0->0@ == x,
            Ok(None) => s is Ok && s->Ok_0 is None,
            Err(e) => s is Err && s->Err_0 == e,
        },
{
    reveal(tbs_end);
    reveal(tbs_extensions);
    let issuer_uid = lift(r.read_optional_bit_string(Tag::context(1, false)))?.is_some();
    let subject_uid = lift(r.read_optional_bit_string(Tag::context(2, false)))?.is_some();
    let extensions_der = match lift(r.read_optional(Tag::context(3, true)))? {
        Some(outer) => {
            let list = lift(read_whole(outer, Tag(Tag::SEQUENCE)))?;
            Some(list)
        },
        None => None,
    };
    if extensions_der.is_some() && version != 3 {
        return Err(Error::BadVersion);
    }
    if (issuer_uid || subject_uid) && version < 2 {
        return Err(Error::BadVersion);
    }
    let end = *r;
    lift(end.finish())?;
    Ok(extensions_der)
}

/// What it takes to verify a certificate's signature.
#[derive(Clone, Copy)]
pub struct Signed<'a> {
    tbs_der: &'a [u8],
    algorithm: algorithm::Signature,
    signature: &'a [u8],
}

impl<'a> View for Signed<'a> {
    type V = (Seq<u8>, algorithm::Signature, Seq<u8>);

    closed spec fn view(&self) -> (Seq<u8>, algorithm::Signature, Seq<u8>) {
        (self.tbs_der@, self.algorithm, self.signature@)
    }
}

impl<'a> Signed<'a> {
    #[verifier::type_invariant]
    spec fn valid(self) -> bool {
        hashable(self.tbs_der@)
    }

    /// Verifies the signature under the issuer's key.
    pub fn verify_signature(self, issuer_spki: &SubjectPublicKeyInfo<'_>) -> (r: Result<(), VerifyError>)
        ensures
            r == signed_by(self@.0, self@.1, self@.2, issuer_spki@),
    {
        proof {
            use_type_invariant(&self);
        }
        let profile = self.algorithm.verification_profile(issuer_spki.algorithm)?;
        if ring_verify(profile, issuer_spki.subject_public_key, self.tbs_der, self.signature) {
            Ok(())
        } else {
            Err(VerifyError::Failed)
        }
    }
}

/// A certificate that is read has a positive serial number of at most 20 octets, a
/// version that its fields go with, and a validity that does not end before it
/// starts; what is signed is part of it.
pub proof fn law_certificate_fields(der: Seq<u8>)
    ensures
        match certificate(der) {
            Ok(c) => {
                &&& 1 <= c.tbs.version <= 3
                &&& c.tbs.extensions is Some ==> c.tbs.version == 3
                &&& 0 < c.tbs.serial.len() <= 20
                &&& c.tbs.serial != seq![0u8]
                &&& c.tbs.validity.not_before.0 <= c.tbs.validity.not_after.0
                &&& c.tbs_der.len() <= der.len()
            },
            Err(_) => true,
        },
{
    reveal(certificate);
    match certificate(der) {
        Ok(_) => {
            let top = der_whole(der, Tag::SEQUENCE)->Ok_0;
            let c = der_tagged(top, Tag::SEQUENCE)->Ok_0;
            lemma_tbs_fields(c);
        },
        Err(_) => {},
    }
}

proof fn lemma_tbs_fields(s: Seq<u8>)
    ensures
        match tbs_fields(s) {
            Ok((t, _)) => {
                &&& 1 <= t.version <= 3
                &&& t.extensions is Some ==> t.version == 3
                &&& 0 < t.serial.len() <= 20
                &&& t.serial != seq![0u8]
                &&& t.validity.not_before.0 <= t.validity.not_after.0
            },
            Err(_) => true,
        },
{
    reveal(tbs_fields);
    let at_serial = after_optional(s, 0xa0);
    let at_validity = after_tlv(after_tlv(after_tlv(at_serial)));
    let at_end = after_tlv(after_tlv(after_tlv(at_validity)));
    assert(tbs_version(s) matches Ok(v) ==> 1 <= v <= 3) by {
        reveal(tbs_version);
    }
    assert(tbs_serial(at_serial) matches Ok(n) ==> 0 < n.len() <= 20 && n != seq![0u8]) by {
        reveal(tbs_serial);
    }
    assert(tbs_validity(at_validity) matches Ok(v) ==> v.not_before.0 <= v.not_after.0) by {
        reveal(tbs_validity);
        lemma_validity_ordered(der_tagged(at_validity, Tag::SEQUENCE)->Ok_0);
    }
    assert(forall|v: u8| #[trigger]
        tbs_end(at_end, v) matches Ok(x) ==> (x is Some ==> v == 3)) by {
        reveal(tbs_end);
    }
}

proof fn lemma_validity_ordered(c: Seq<u8>)
    ensures
        validity(c) matches Ok(v) ==> v.not_before.0 <= v.not_after.0,
{
    reveal(validity);
    if let Ok((tag, before, rest)) = der_tlv(c) {
        lemma_x509_time_bound(tag, before);
        if let Ok((tag2, after, _)) = der_tlv(rest) {
            lemma_x509_time_bound(tag2, after);
        }
    }
}

} // verus!
