//! Algorithm identifiers of certificates.

use vstd::prelude::*;

use crate::codec::bytes_eq;
use crate::crypto::sig::VerificationProfile;
use crate::identity::asn1::{
    after_optional, after_tlv, context_tag, der_oid, der_optional, der_tagged, der_tlv, der_uint,
    der_whole, read_whole, uint_value, DerError, Oid, Reader, Tag, Tlv,
};
use crate::identity::cert::{
    der, lift, Error, VerifyError, OID_ECDSA_SHA256, OID_ECDSA_SHA384, OID_EC_PUBLIC_KEY,
    OID_ED25519, OID_P256_CURVE, OID_P384_CURVE, OID_RSA_ENCRYPTION, OID_RSA_PSS,
    OID_SHA256_WITH_RSA, OID_SHA384_WITH_RSA, OID_SHA512_WITH_RSA,
};

verus! {

pub const OID_SHA1: [u8; 5] = [0x2b, 0x0e, 0x03, 0x02, 0x1a];

pub const OID_SHA256: [u8; 9] = [0x60, 0x86, 0x48, 0x01, 0x65, 0x03, 0x04, 0x02, 0x01];

pub const OID_SHA384: [u8; 9] = [0x60, 0x86, 0x48, 0x01, 0x65, 0x03, 0x04, 0x02, 0x02];

pub const OID_SHA512: [u8; 9] = [0x60, 0x86, 0x48, 0x01, 0x65, 0x03, 0x04, 0x02, 0x03];

pub const OID_MGF1: [u8; 9] = [0x2a, 0x86, 0x48, 0x86, 0xf7, 0x0d, 0x01, 0x01, 0x08];

pub const DER_NULL: [u8; 2] = [0x05, 0x00];

/// A hash function that a signature names.
#[derive(Debug, Clone, Copy, PartialEq, Eq, Structural)]
pub enum Hash {
    Sha1,
    Sha256,
    Sha384,
    Sha512,
}

/// A mask generation function, and the hash it is made of where that is known.
#[derive(Debug, Clone, Copy, PartialEq, Eq, Structural)]
pub enum Mask {
    Mgf1(Option<Hash>),
    Unsupported,
}

/// The parameters of an RSA-PSS signature or key.
#[derive(Debug, Clone, Copy, PartialEq, Eq, Structural)]
pub struct PssParameters {
    pub hash: Option<Hash>,
    pub mask: Mask,
    pub salt_length: u64,
}

/// An algorithm identifier: its object identifier and the DER of its parameters.
pub struct IdentifierView {
    pub oid: Seq<u8>,
    pub parameters: Seq<u8>,
}

/// The algorithm identifier at the front of `s`: a sequence of an object
/// identifier and at most one element more.
pub open spec fn algorithm_identifier(s: Seq<u8>) -> Result<IdentifierView, Error> {
    match der_tagged(s, Tag::SEQUENCE) {
        Err(e) => Err(Error::Der(e)),
        Ok(contents) => match der_oid(contents) {
            Err(e) => Err(Error::Der(e)),
            Ok(oid) => {
                let parameters = after_tlv(contents);
                if parameters.len() == 0 {
                    Ok(IdentifierView { oid, parameters })
                } else {
                    match der_tlv(parameters) {
                        Err(e) => Err(Error::Der(e)),
                        Ok((_, _, trailing)) => if trailing.len() == 0 {
                            Ok(IdentifierView { oid, parameters })
                        } else {
                            Err(Error::BadAlgorithm)
                        },
                    }
                }
            },
        },
    }
}

/// An algorithm identifier that is all of `s`.
pub open spec fn whole_identifier(s: Seq<u8>) -> Result<IdentifierView, Error> {
    match algorithm_identifier(s) {
        Err(e) => Err(e),
        Ok(id) => if after_tlv(s).len() == 0 {
            Ok(id)
        } else {
            Err(Error::Der(DerError::Trailing))
        },
    }
}

/// Whether parameters are left out, or said to be none.
pub open spec fn absent_or_null(parameters: Seq<u8>) -> bool {
    parameters.len() == 0 || parameters == DER_NULL@
}

/// The hash function that an identifier names.
pub open spec fn hash_of(id: IdentifierView) -> Option<Hash> {
    if id.oid == OID_SHA1@ {
        Some(Hash::Sha1)
    } else if id.oid == OID_SHA256@ {
        Some(Hash::Sha256)
    } else if id.oid == OID_SHA384@ {
        Some(Hash::Sha384)
    } else if id.oid == OID_SHA512@ {
        Some(Hash::Sha512)
    } else {
        None
    }
}

/// The hash function that an identifier names, which takes no parameters;
/// nothing where it is unknown.
pub open spec fn checked_hash(id: IdentifierView) -> Result<Option<Hash>, Error> {
    match hash_of(id) {
        None => Ok(None),
        Some(h) => if absent_or_null(id.parameters) {
            Ok(Some(h))
        } else {
            Err(Error::BadAlgorithm)
        },
    }
}

/// The hash field of RSA-PSS parameters: SHA-1 where it is left out, which must
/// not be written out.
pub open spec fn pss_hash(s: Seq<u8>) -> Result<Option<Hash>, Error> {
    match der_optional(s, context_tag(0, true)) {
        Err(e) => Err(Error::Der(e)),
        Ok(None) => Ok(Some(Hash::Sha1)),
        Ok(Some(explicit)) => match whole_identifier(explicit) {
            Err(e) => Err(e),
            Ok(id) => match checked_hash(id) {
                Err(e) => Err(e),
                Ok(h) => if h == Some(Hash::Sha1) {
                    Err(Error::BadAlgorithm)
                } else {
                    Ok(h)
                },
            },
        },
    }
}

/// The mask generation function of an explicit field.
pub open spec fn explicit_mask(explicit: Seq<u8>) -> Result<Mask, Error> {
    match whole_identifier(explicit) {
        Err(e) => Err(e),
        Ok(id) => if id.oid != OID_MGF1@ {
            Ok(Mask::Unsupported)
        } else if id.parameters.len() == 0 {
            Err(Error::BadAlgorithm)
        } else {
            match whole_identifier(id.parameters) {
                Err(e) => Err(e),
                Ok(inner) => match checked_hash(inner) {
                    Err(e) => Err(e),
                    Ok(h) => Ok(Mask::Mgf1(h)),
                },
            }
        },
    }
}

/// The mask field of RSA-PSS parameters: MGF1 with SHA-1 where it is left out,
/// which must not be written out.
pub open spec fn pss_mask(s: Seq<u8>) -> Result<Mask, Error> {
    match der_optional(s, context_tag(1, true)) {
        Err(e) => Err(Error::Der(e)),
        Ok(None) => Ok(Mask::Mgf1(Some(Hash::Sha1))),
        Ok(Some(explicit)) => match explicit_mask(explicit) {
            Err(e) => Err(e),
            Ok(m) => if m == Mask::Mgf1(Some(Hash::Sha1)) {
                Err(Error::BadAlgorithm)
            } else {
                Ok(m)
            },
        },
    }
}

/// The integer of an explicit field.
pub open spec fn explicit_integer(explicit: Seq<u8>) -> Result<u64, Error> {
    match der_uint(explicit) {
        Err(e) => Err(Error::Der(e)),
        Ok(c) => match uint_value(c) {
            Err(e) => Err(Error::Der(e)),
            Ok(v) => if after_tlv(explicit).len() == 0 {
                Ok(v)
            } else {
                Err(Error::Der(DerError::Trailing))
            },
        },
    }
}

/// The salt length field of RSA-PSS parameters: 20 where it is left out, which
/// must not be written out.
pub open spec fn pss_salt(s: Seq<u8>) -> Result<u64, Error> {
    match der_optional(s, context_tag(2, true)) {
        Err(e) => Err(Error::Der(e)),
        Ok(None) => Ok(20),
        Ok(Some(explicit)) => match explicit_integer(explicit) {
            Err(e) => Err(e),
            Ok(v) => if v == 20 {
                Err(Error::BadAlgorithm)
            } else {
                Ok(v)
            },
        },
    }
}

/// The trailer field of RSA-PSS parameters, of which only the default is known,
/// and it must not be written out; nothing may follow.
pub open spec fn pss_trailer(s: Seq<u8>) -> Result<(), Error> {
    match der_optional(s, context_tag(3, true)) {
        Err(e) => Err(Error::Der(e)),
        Ok(None) => if s.len() == 0 {
            Ok(())
        } else {
            Err(Error::Der(DerError::Trailing))
        },
        Ok(Some(explicit)) => match explicit_integer(explicit) {
            Err(e) => Err(e),
            Ok(_) => Err(Error::BadAlgorithm),
        },
    }
}

/// The RSA-PSS parameters that `s` encodes.
pub open spec fn pss_parameters(s: Seq<u8>) -> Result<PssParameters, Error> {
    match der_whole(s, Tag::SEQUENCE) {
        Err(e) => Err(Error::Der(e)),
        Ok(s0) => match pss_hash(s0) {
            Err(e) => Err(e),
            Ok(hash) => {
                let s1 = after_optional(s0, context_tag(0, true));
                match pss_mask(s1) {
                    Err(e) => Err(e),
                    Ok(mask) => {
                        let s2 = after_optional(s1, context_tag(1, true));
                        match pss_salt(s2) {
                            Err(e) => Err(e),
                            Ok(salt_length) => match pss_trailer(
                                after_optional(s2, context_tag(2, true)),
                            ) {
                                Err(e) => Err(e),
                                Ok(_) => Ok(PssParameters { hash, mask, salt_length }),
                            },
                        }
                    },
                }
            },
        },
    }
}

/// How RSA-PSS parameters are verified: the same hash throughout, and a salt as
/// long as it.
pub open spec fn pss_verification(p: PssParameters) -> Option<VerificationProfile> {
    if p.mask != Mask::Mgf1(p.hash) {
        None
    } else if p.hash == Some(Hash::Sha256) && p.salt_length == 32 {
        Some(VerificationProfile::RsaPssSha256)
    } else if p.hash == Some(Hash::Sha384) && p.salt_length == 48 {
        Some(VerificationProfile::RsaPssSha384)
    } else if p.hash == Some(Hash::Sha512) && p.salt_length == 64 {
        Some(VerificationProfile::RsaPssSha512)
    } else {
        None
    }
}

impl PssParameters {
    /// The hash, where it is known.
    pub fn hash(self) -> (r: Option<Hash>)
        ensures
            r == self.hash,
    {
        self.hash
    }

    /// The hash of the mask generation function, where it is known.
    pub fn mask_hash(self) -> (r: Option<Hash>)
        ensures
            r == match self.mask {
                Mask::Mgf1(h) => h,
                Mask::Unsupported => None,
            },
    {
        match self.mask {
            Mask::Mgf1(hash) => hash,
            Mask::Unsupported => None,
        }
    }

    /// The length of the salt.
    pub fn salt_length(self) -> (r: u64)
        ensures
            r == self.salt_length,
    {
        self.salt_length
    }

    /// How signatures with these parameters are verified.
    pub fn profile(self) -> (r: Option<VerificationProfile>)
        ensures
            r == pss_verification(self),
    {
        let (hash, mask_hash) = match (self.hash, self.mask) {
            (Some(hash), Mask::Mgf1(Some(mask_hash))) => (hash, mask_hash),
            _ => return None,
        };
        if hash != mask_hash {
            return None;
        }
        match hash {
            Hash::Sha256 => if self.salt_length == 32 {
                Some(VerificationProfile::RsaPssSha256)
            } else {
                None
            },
            Hash::Sha384 => if self.salt_length == 48 {
                Some(VerificationProfile::RsaPssSha384)
            } else {
                None
            },
            Hash::Sha512 => if self.salt_length == 64 {
                Some(VerificationProfile::RsaPssSha512)
            } else {
                None
            },
            Hash::Sha1 => None,
        }
    }

    /// Whether a key with these parameters may make a signature with those: the
    /// same hash and mask, and a salt at least as long.
    pub fn permits(self, signature: Self) -> (r: bool)
        ensures
            r == (self.hash == signature.hash && self.mask == signature.mask && signature.salt_length
                >= self.salt_length),
    {
        same_hash(self.hash, signature.hash) && same_mask(self.mask, signature.mask)
            && signature.salt_length >= self.salt_length
    }

    /// Reads the DER of the parameters.
    pub fn parse(der: &[u8]) -> (r: Result<Self, Error>)
        ensures
            r == pss_parameters(der@),
    {
        let contents = lift(read_whole(der, Tag(Tag::SEQUENCE)))?;
        let mut fields = Reader::new(contents);

        let explicit = lift(fields.read_optional(Tag::context(0, true)))?;
        let hash = match explicit {
            Some(explicit) => {
                let hash = parse_hash(RawIdentifier::parse_exact(explicit)?)?;
                if same_hash(hash, Some(Hash::Sha1)) {
                    return Err(Error::BadAlgorithm);
                }
                hash
            },
            None => Some(Hash::Sha1),
        };
        let explicit = lift(fields.read_optional(Tag::context(1, true)))?;
        let mask = match explicit {
            Some(explicit) => {
                let mask = parse_explicit_mask(explicit)?;
                if same_mask(mask, Mask::Mgf1(Some(Hash::Sha1))) {
                    return Err(Error::BadAlgorithm);
                }
                mask
            },
            None => Mask::Mgf1(Some(Hash::Sha1)),
        };
        let explicit = lift(fields.read_optional(Tag::context(2, true)))?;
        let salt_length: u64 = match explicit {
            Some(explicit) => {
                let salt_length: u64 = parse_explicit_integer(explicit)?;
                if salt_length == 20 {
                    return Err(Error::BadAlgorithm);
                }
                salt_length
            },
            None => 20,
        };
        let explicit = lift(fields.read_optional(Tag::context(3, true)))?;
        if let Some(explicit) = explicit {
            let _trailer: u64 = parse_explicit_integer(explicit)?;
            return Err(Error::BadAlgorithm);
        }
        lift(fields.finish())?;
        Ok(Self { hash, mask, salt_length })
    }
}

fn same_hash(a: Option<Hash>, b: Option<Hash>) -> (r: bool)
    ensures
        r == (a == b),
{
    match (a, b) {
        (Some(x), Some(y)) => x == y,
        (None, None) => true,
        _ => false,
    }
}

fn same_mask(a: Mask, b: Mask) -> (r: bool)
    ensures
        r == (a == b),
{
    match (a, b) {
        (Mask::Mgf1(x), Mask::Mgf1(y)) => same_hash(x, y),
        (Mask::Unsupported, Mask::Unsupported) => true,
        _ => false,
    }
}

/// How a certificate is signed.
#[derive(Debug, Clone, Copy, PartialEq, Eq, Structural)]
pub enum Signature {
    RsaPkcs1Sha256,
    RsaPkcs1Sha384,
    RsaPkcs1Sha512,
    RsaPss(PssParameters),
    EcdsaSha256,
    EcdsaSha384,
    Ed25519,
    Unsupported,
}

/// The curve of an elliptic-curve key.
#[derive(Debug, Clone, Copy, PartialEq, Eq, Structural)]
pub enum NamedCurve {
    P256,
    P384,
    Unsupported,
}

/// What a public key is.
#[derive(Debug, Clone, Copy, PartialEq, Eq, Structural)]
pub enum PublicKey {
    Rsa,
    RsaPss(Option<PssParameters>),
    Ec(NamedCurve),
    Ed25519,
    Unsupported,
}

/// An algorithm identifier as it stands in the DER.
#[derive(Clone, Copy)]
pub struct RawIdentifier<'a> {
    oid: Oid<'a>,
    parameters: &'a [u8],
}

impl<'a> View for RawIdentifier<'a> {
    type V = IdentifierView;

    closed spec fn view(&self) -> IdentifierView {
        IdentifierView { oid: self.oid@, parameters: self.parameters@ }
    }
}

impl<'a> RawIdentifier<'a> {
    /// Reads one algorithm identifier.
    pub fn parse(reader: &mut Reader<'a>) -> (r: Result<Self, Error>)
        ensures
            match algorithm_identifier(old(reader)@) {
                Ok(id) => r is Ok && r->Ok_0@ == id,
                Err(e) => r is Err && r->Err_0 == e,
            },
            final(reader)@ == after_tlv(old(reader)@),
    {
        let contents = lift(reader.read_tagged(Tag(Tag::SEQUENCE)))?;
        let mut algorithm = Reader::new(contents);
        let oid = lift(algorithm.read_oid())?;
        let parameters = algorithm.bytes_remaining();
        if parameters.len() > 0 {
            let (_, trailing) = lift(Tlv::parse_one(parameters))?;
            if trailing.len() > 0 {
                return Err(Error::BadAlgorithm);
            }
        }
        Ok(Self { oid, parameters })
    }

    /// Reads an algorithm identifier that is all of `der`.
    pub fn parse_exact(der: &'a [u8]) -> (r: Result<Self, Error>)
        ensures
            match whole_identifier(der@) {
                Ok(id) => r is Ok && r->Ok_0@ == id,
                Err(e) => r is Err && r->Err_0 == e,
            },
    {
        let mut reader = Reader::new(der);
        let algorithm = Self::parse(&mut reader)?;
        lift(reader.finish())?;
        Ok(algorithm)
    }

    /// Whether two identifiers are the same.
    pub fn equals(&self, other: &Self) -> (r: bool)
        ensures
            r == (self@ == other@),
    {
        let same = bytes_eq(self.oid.as_bytes(), other.oid.as_bytes()) && bytes_eq(
            self.parameters,
            other.parameters,
        );
        same
    }

    fn is(&self, oid: &[u8]) -> (r: bool)
        ensures
            r == (self@.oid == oid@),
    {
        self.oid.is(oid)
    }
}

/// How a certificate with this identifier is signed.
pub open spec fn signature_algorithm(id: IdentifierView) -> Result<Signature, Error> {
    if id.oid == OID_SHA256_WITH_RSA@ {
        if absent_or_null(id.parameters) {
            Ok(Signature::RsaPkcs1Sha256)
        } else {
            Err(Error::BadAlgorithm)
        }
    } else if id.oid == OID_SHA384_WITH_RSA@ {
        if absent_or_null(id.parameters) {
            Ok(Signature::RsaPkcs1Sha384)
        } else {
            Err(Error::BadAlgorithm)
        }
    } else if id.oid == OID_SHA512_WITH_RSA@ {
        if absent_or_null(id.parameters) {
            Ok(Signature::RsaPkcs1Sha512)
        } else {
            Err(Error::BadAlgorithm)
        }
    } else if id.oid == OID_RSA_PSS@ {
        if id.parameters.len() == 0 {
            Err(Error::BadAlgorithm)
        } else {
            match pss_parameters(id.parameters) {
                Ok(p) => Ok(Signature::RsaPss(p)),
                Err(e) => Err(e),
            }
        }
    } else if id.oid == OID_ECDSA_SHA256@ {
        if id.parameters.len() == 0 {
            Ok(Signature::EcdsaSha256)
        } else {
            Err(Error::BadAlgorithm)
        }
    } else if id.oid == OID_ECDSA_SHA384@ {
        if id.parameters.len() == 0 {
            Ok(Signature::EcdsaSha384)
        } else {
            Err(Error::BadAlgorithm)
        }
    } else if id.oid == OID_ED25519@ {
        if id.parameters.len() == 0 {
            Ok(Signature::Ed25519)
        } else {
            Err(Error::BadAlgorithm)
        }
    } else {
        Ok(Signature::Unsupported)
    }
}

/// How a signature made as `s` by a key of type `key` is verified: only by a key
/// of its own type, and RSA-PSS within the key's own restrictions.
pub open spec fn verification(s: Signature, key: PublicKey) -> Result<VerificationProfile, VerifyError> {
    match (s, key) {
        (Signature::RsaPkcs1Sha256, PublicKey::Rsa) => Ok(VerificationProfile::RsaPkcs1Sha256),
        (Signature::RsaPkcs1Sha384, PublicKey::Rsa) => Ok(VerificationProfile::RsaPkcs1Sha384),
        (Signature::RsaPkcs1Sha512, PublicKey::Rsa) => Ok(VerificationProfile::RsaPkcs1Sha512),
        (Signature::RsaPss(p), PublicKey::Rsa) => match pss_verification(p) {
            Some(v) => Ok(v),
            None => Err(VerifyError::UnsupportedAlgorithm),
        },
        (Signature::RsaPss(p), PublicKey::RsaPss(constraints)) => match pss_verification(p) {
            None => Err(VerifyError::UnsupportedAlgorithm),
            Some(v) => if constraints matches Some(c) && !(c.hash == p.hash && c.mask == p.mask
                && p.salt_length >= c.salt_length) {
                Err(VerifyError::AlgorithmMismatch)
            } else {
                Ok(v)
            },
        },
        (Signature::EcdsaSha256, PublicKey::Ec(curve)) => if curve == NamedCurve::P256 {
            Ok(VerificationProfile::EcdsaP256Sha256)
        } else {
            Err(VerifyError::UnsupportedCurve)
        },
        (Signature::EcdsaSha384, PublicKey::Ec(curve)) => if curve == NamedCurve::P384 {
            Ok(VerificationProfile::EcdsaP384Sha384)
        } else {
            Err(VerifyError::UnsupportedCurve)
        },
        (Signature::Ed25519, PublicKey::Ed25519) => Ok(VerificationProfile::Ed25519),
        (Signature::Unsupported, _) => Err(VerifyError::UnsupportedAlgorithm),
        (_, PublicKey::Unsupported) => Err(VerifyError::UnsupportedAlgorithm),
        _ => Err(VerifyError::AlgorithmMismatch),
    }
}

/// No key verifies a signature made another way: two ways that are verified alike
/// under keys are the same, but for RSA-PSS parameters that mean the same.
pub proof fn law_verification_keeps_families(s: Signature, key: PublicKey)
    requires
        verification(s, key) is Ok,
    ensures
        match verification(s, key)->Ok_0 {
            VerificationProfile::Ed25519 => s == Signature::Ed25519 && key == PublicKey::Ed25519,
            VerificationProfile::EcdsaP256Sha256 => s == Signature::EcdsaSha256 && key == PublicKey::Ec(
                NamedCurve::P256,
            ),
            VerificationProfile::EcdsaP384Sha384 => s == Signature::EcdsaSha384 && key == PublicKey::Ec(
                NamedCurve::P384,
            ),
            VerificationProfile::RsaPkcs1Sha256 => s == Signature::RsaPkcs1Sha256 && key
                == PublicKey::Rsa,
            VerificationProfile::RsaPkcs1Sha384 => s == Signature::RsaPkcs1Sha384 && key
                == PublicKey::Rsa,
            VerificationProfile::RsaPkcs1Sha512 => s == Signature::RsaPkcs1Sha512 && key
                == PublicKey::Rsa,
            VerificationProfile::RsaPssSha256 => s is RsaPss && s->RsaPss_0.hash == Some(Hash::Sha256)
                && (key == PublicKey::Rsa || key is RsaPss),
            VerificationProfile::RsaPssSha384 => s is RsaPss && s->RsaPss_0.hash == Some(Hash::Sha384)
                && (key == PublicKey::Rsa || key is RsaPss),
            VerificationProfile::RsaPssSha512 => s is RsaPss && s->RsaPss_0.hash == Some(Hash::Sha512)
                && (key == PublicKey::Rsa || key is RsaPss),
        },
{
}

impl Signature {
    /// How a certificate with this identifier is signed.
    pub fn parse<'a>(raw: RawIdentifier<'a>) -> (r: Result<Self, Error>)
        ensures
            r == signature_algorithm(raw@),
    {
        if raw.is(&OID_SHA256_WITH_RSA) {
            require_absent_or_null(raw.parameters)?;
            Ok(Signature::RsaPkcs1Sha256)
        } else if raw.is(&OID_SHA384_WITH_RSA) {
            require_absent_or_null(raw.parameters)?;
            Ok(Signature::RsaPkcs1Sha384)
        } else if raw.is(&OID_SHA512_WITH_RSA) {
            require_absent_or_null(raw.parameters)?;
            Ok(Signature::RsaPkcs1Sha512)
        } else if raw.is(&OID_RSA_PSS) {
            if raw.parameters.len() == 0 {
                return Err(Error::BadAlgorithm);
            }
            Ok(Signature::RsaPss(PssParameters::parse(raw.parameters)?))
        } else if raw.is(&OID_ECDSA_SHA256) {
            require_absent(raw.parameters)?;
            Ok(Signature::EcdsaSha256)
        } else if raw.is(&OID_ECDSA_SHA384) {
            require_absent(raw.parameters)?;
            Ok(Signature::EcdsaSha384)
        } else if raw.is(&OID_ED25519) {
            require_absent(raw.parameters)?;
            Ok(Signature::Ed25519)
        } else {
            Ok(Signature::Unsupported)
        }
    }

    /// How a signature made this way by a key of type `key` is verified.
    pub fn verification_profile(self, key: PublicKey) -> (r: Result<VerificationProfile, VerifyError>)
        ensures
            r == verification(self, key),
    {
        match (self, key) {
            (Signature::RsaPkcs1Sha256, PublicKey::Rsa) => Ok(VerificationProfile::RsaPkcs1Sha256),
            (Signature::RsaPkcs1Sha384, PublicKey::Rsa) => Ok(VerificationProfile::RsaPkcs1Sha384),
            (Signature::RsaPkcs1Sha512, PublicKey::Rsa) => Ok(VerificationProfile::RsaPkcs1Sha512),
            (Signature::RsaPss(parameters), PublicKey::Rsa) => pss_profile(parameters),
            (Signature::RsaPss(parameters), PublicKey::RsaPss(constraints)) => {
                let profile = pss_profile(parameters)?;
                if let Some(c) = constraints {
                    if !c.permits(parameters) {
                        return Err(VerifyError::AlgorithmMismatch);
                    }
                }
                Ok(profile)
            },
            (Signature::EcdsaSha256, PublicKey::Ec(NamedCurve::P256)) => Ok(
                VerificationProfile::EcdsaP256Sha256,
            ),
            (Signature::EcdsaSha384, PublicKey::Ec(NamedCurve::P384)) => Ok(
                VerificationProfile::EcdsaP384Sha384,
            ),
            (Signature::EcdsaSha256, PublicKey::Ec(_)) => Err(VerifyError::UnsupportedCurve),
            (Signature::EcdsaSha384, PublicKey::Ec(_)) => Err(VerifyError::UnsupportedCurve),
            (Signature::Ed25519, PublicKey::Ed25519) => Ok(VerificationProfile::Ed25519),
            (Signature::Unsupported, _) => Err(VerifyError::UnsupportedAlgorithm),
            (_, PublicKey::Unsupported) => Err(VerifyError::UnsupportedAlgorithm),
            _ => Err(VerifyError::AlgorithmMismatch),
        }
    }
}

/// The curve that an object identifier names.
pub open spec fn curve_of(oid: Seq<u8>) -> NamedCurve {
    if oid == OID_P256_CURVE@ {
        NamedCurve::P256
    } else if oid == OID_P384_CURVE@ {
        NamedCurve::P384
    } else {
        NamedCurve::Unsupported
    }
}

/// What a public key with this identifier is.
pub open spec fn public_key_algorithm(id: IdentifierView) -> Result<PublicKey, Error> {
    if id.oid == OID_RSA_ENCRYPTION@ {
        if id.parameters == DER_NULL@ {
            Ok(PublicKey::Rsa)
        } else {
            Err(Error::BadAlgorithm)
        }
    } else if id.oid == OID_RSA_PSS@ {
        if id.parameters.len() == 0 {
            Ok(PublicKey::RsaPss(None))
        } else {
            match pss_parameters(id.parameters) {
                Ok(p) => Ok(PublicKey::RsaPss(Some(p))),
                Err(e) => Err(e),
            }
        }
    } else if id.oid == OID_EC_PUBLIC_KEY@ {
        if id.parameters.len() == 0 {
            Err(Error::BadAlgorithm)
        } else {
            match der_oid(id.parameters) {
                Err(e) => Err(Error::Der(e)),
                Ok(oid) => if after_tlv(id.parameters).len() == 0 {
                    Ok(PublicKey::Ec(curve_of(oid)))
                } else {
                    Err(Error::Der(DerError::Trailing))
                },
            }
        }
    } else if id.oid == OID_ED25519@ {
        if id.parameters.len() == 0 {
            Ok(PublicKey::Ed25519)
        } else {
            Err(Error::BadAlgorithm)
        }
    } else {
        Ok(PublicKey::Unsupported)
    }
}

impl PublicKey {
    /// What a public key with this identifier is.
    pub fn parse<'a>(raw: RawIdentifier<'a>) -> (r: Result<Self, Error>)
        ensures
            r == public_key_algorithm(raw@),
    {
        if raw.is(&OID_RSA_ENCRYPTION) {
            if !bytes_eq(raw.parameters, &DER_NULL) {
                return Err(Error::BadAlgorithm);
            }
            Ok(PublicKey::Rsa)
        } else if raw.is(&OID_RSA_PSS) {
            if raw.parameters.len() == 0 {
                Ok(PublicKey::RsaPss(None))
            } else {
                Ok(PublicKey::RsaPss(Some(PssParameters::parse(raw.parameters)?)))
            }
        } else if raw.is(&OID_EC_PUBLIC_KEY) {
            if raw.parameters.len() == 0 {
                return Err(Error::BadAlgorithm);
            }
            let mut parameters = Reader::new(raw.parameters);
            let oid = lift(parameters.read_oid())?;
            let curve = if oid.is(&OID_P256_CURVE) {
                NamedCurve::P256
            } else if oid.is(&OID_P384_CURVE) {
                NamedCurve::P384
            } else {
                NamedCurve::Unsupported
            };
            lift(parameters.finish())?;
            Ok(PublicKey::Ec(curve))
        } else if raw.is(&OID_ED25519) {
            require_absent(raw.parameters)?;
            Ok(PublicKey::Ed25519)
        } else {
            Ok(PublicKey::Unsupported)
        }
    }
}

fn pss_profile(parameters: PssParameters) -> (r: Result<VerificationProfile, VerifyError>)
    ensures
        r == match pss_verification(parameters) {
            Some(v) => Ok::<VerificationProfile, VerifyError>(v),
            None => Err::<VerificationProfile, VerifyError>(VerifyError::UnsupportedAlgorithm),
        },
{
    match parameters.profile() {
        Some(v) => Ok(v),
        None => Err(VerifyError::UnsupportedAlgorithm),
    }
}

fn parse_explicit_mask(explicit: &[u8]) -> (r: Result<Mask, Error>)
    ensures
        r == explicit_mask(explicit@),
{
    let raw = RawIdentifier::parse_exact(explicit)?;
    if !raw.is(&OID_MGF1) {
        return Ok(Mask::Unsupported);
    }
    if raw.parameters.len() == 0 {
        return Err(Error::BadAlgorithm);
    }
    let inner = RawIdentifier::parse_exact(raw.parameters)?;
    Ok(Mask::Mgf1(parse_hash(inner)?))
}

fn parse_hash<'a>(raw: RawIdentifier<'a>) -> (r: Result<Option<Hash>, Error>)
    ensures
        r == checked_hash(raw@),
{
    let hash = if raw.is(&OID_SHA1) {
        Hash::Sha1
    } else if raw.is(&OID_SHA256) {
        Hash::Sha256
    } else if raw.is(&OID_SHA384) {
        Hash::Sha384
    } else if raw.is(&OID_SHA512) {
        Hash::Sha512
    } else {
        return Ok(None);
    };
    require_absent_or_null(raw.parameters)?;
    Ok(Some(hash))
}

fn parse_explicit_integer(explicit: &[u8]) -> (r: Result<u64, Error>)
    ensures
        r == explicit_integer(explicit@),
{
    let mut reader = Reader::new(explicit);
    let uint = lift(reader.read_uint())?;
    let value: u64 = lift(uint.to_u64())?;
    lift(reader.finish())?;
    Ok(value)
}

fn require_absent(parameters: &[u8]) -> (r: Result<(), Error>)
    ensures
        parameters@.len() == 0 ==> r is Ok,
        parameters@.len() != 0 ==> r == Err::<(), Error>(Error::BadAlgorithm),
{
    if parameters.len() == 0 {
        Ok(())
    } else {
        Err(Error::BadAlgorithm)
    }
}

fn require_absent_or_null(parameters: &[u8]) -> (r: Result<(), Error>)
    ensures
        absent_or_null(parameters@) ==> r is Ok,
        !absent_or_null(parameters@) ==> r == Err::<(), Error>(Error::BadAlgorithm),
{
    if parameters.len() == 0 || bytes_eq(parameters, &DER_NULL) {
        Ok(())
    } else {
        Err(Error::BadAlgorithm)
    }
}

} // verus!
