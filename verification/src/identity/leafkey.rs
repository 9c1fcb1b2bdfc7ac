//! A peer's key, borrowed from the bytes that hold it, and the check of its
//! CertificateVerify.

use vstd::prelude::*;

use crate::codec::to_array;
use crate::crypto::hash::hashable;
use crate::crypto::sig::{self, signature_valid, SignatureScheme, VerificationProfile, VerifyingKey};
use crate::identity::cert::algorithm::{NamedCurve, PublicKey};
use crate::identity::cert::{certificate, spki_whole, Cert, SpkiView, SubjectPublicKeyInfo};
use crate::Error;

verus! {

pub const MAX_PEER_KEY_LEN: usize = 2048;

#[derive(Debug, Clone, Copy, PartialEq, Eq, Structural)]
pub enum LeafKeyKind {
    Ed25519,
    EcdsaP256,
    EcdsaP384,
    Rsa,
}

/// Whether bytes can be a key of a kind: 32 bytes, an uncompressed point on the
/// curve's scale, or any RSA key, none empty or longer than a key may be.
pub open spec fn valid_key(kind: LeafKeyKind, raw: Seq<u8>) -> bool {
    &&& 0 < raw.len() <= MAX_PEER_KEY_LEN
    &&& match kind {
        LeafKeyKind::Ed25519 => raw.len() == sig::PUBKEY_LEN,
        LeafKeyKind::EcdsaP256 => raw.len() == sig::ECDSA_P256_PUBKEY_LEN && raw[0] == 4,
        LeafKeyKind::EcdsaP384 => raw.len() == sig::ECDSA_P384_PUBKEY_LEN && raw[0] == 4,
        LeafKeyKind::Rsa => true,
    }
}

/// How a signature under a scheme is verified with a key of a kind; `None` where
/// the scheme is not one for such a key.
pub open spec fn key_profile(kind: LeafKeyKind, scheme: u16) -> Option<VerificationProfile> {
    match kind {
        LeafKeyKind::Ed25519 => if scheme == SignatureScheme::ED25519 {
            Some(VerificationProfile::Ed25519)
        } else {
            None
        },
        LeafKeyKind::EcdsaP256 => if scheme == SignatureScheme::ECDSA_SECP256R1_SHA256 {
            Some(VerificationProfile::EcdsaP256Sha256)
        } else {
            None
        },
        LeafKeyKind::EcdsaP384 => if scheme == SignatureScheme::ECDSA_SECP384R1_SHA384 {
            Some(VerificationProfile::EcdsaP384Sha384)
        } else {
            None
        },
        LeafKeyKind::Rsa => if scheme == SignatureScheme::RSA_PSS_RSAE_SHA256 {
            Some(VerificationProfile::RsaPssSha256)
        } else if scheme == SignatureScheme::RSA_PSS_RSAE_SHA384 {
            Some(VerificationProfile::RsaPssSha384)
        } else if scheme == SignatureScheme::RSA_PSS_RSAE_SHA512 {
            Some(VerificationProfile::RsaPssSha512)
        } else {
            None
        },
    }
}

/// The kind of key that a certificate's key type stands for.
pub open spec fn key_kind(algorithm: PublicKey) -> Option<LeafKeyKind> {
    match algorithm {
        PublicKey::Ed25519 => Some(LeafKeyKind::Ed25519),
        PublicKey::Ec(NamedCurve::P256) => Some(LeafKeyKind::EcdsaP256),
        PublicKey::Ec(NamedCurve::P384) => Some(LeafKeyKind::EcdsaP384),
        PublicKey::Rsa => Some(LeafKeyKind::Rsa),
        _ => None,
    }
}

/// The key in a subject public key info.
pub open spec fn spki_leaf(spki: SpkiView) -> Result<(LeafKeyKind, Seq<u8>), Error> {
    match key_kind(spki.algorithm) {
        Some(kind) => if valid_key(kind, spki.key) {
            Ok((kind, spki.key))
        } else {
            Err(Error::UnsupportedSigScheme)
        },
        None => Err(Error::UnsupportedSigScheme),
    }
}

/// The key in a raw public key, which is an Ed25519 or elliptic-curve key.
pub open spec fn raw_spki_leaf(spki_der: Seq<u8>) -> Result<(LeafKeyKind, Seq<u8>), Error> {
    match spki_whole(spki_der) {
        Err(_) => Err(Error::Spki),
        Ok(spki) => if spki.algorithm == PublicKey::Ed25519 || spki.algorithm is Ec {
            spki_leaf(spki)
        } else {
            Err(Error::Spki)
        },
    }
}

/// A peer's public key: its kind, and bytes that can be a key of that kind.
#[derive(Clone, Copy)]
pub struct LeafKey<'a> {
    kind: LeafKeyKind,
    raw: &'a [u8],
}

impl<'a> View for LeafKey<'a> {
    type V = (LeafKeyKind, Seq<u8>);

    closed spec fn view(&self) -> (LeafKeyKind, Seq<u8>) {
        (self.kind, self.raw@)
    }
}

impl<'a> LeafKey<'a> {
    #[verifier::type_invariant]
    spec fn valid(self) -> bool {
        valid_key(self.kind, self.raw@)
    }

    /// A key of a kind from its bytes.
    pub fn from_raw(kind: LeafKeyKind, raw: &'a [u8]) -> (r: Result<Self, Error>)
        ensures
            valid_key(kind, raw@) ==> r is Ok && r->Ok_0@ == (kind, raw@),
            !valid_key(kind, raw@) ==> r is Err && r->Err_0 == Error::UnsupportedSigScheme,
    {
        if raw.len() == 0 || raw.len() > MAX_PEER_KEY_LEN {
            return Err(Error::UnsupportedSigScheme);
        }
        let fits = match kind {
            LeafKeyKind::Ed25519 => raw.len() == sig::PUBKEY_LEN,
            LeafKeyKind::EcdsaP256 => raw.len() == sig::ECDSA_P256_PUBKEY_LEN && raw[0] == 4,
            LeafKeyKind::EcdsaP384 => raw.len() == sig::ECDSA_P384_PUBKEY_LEN && raw[0] == 4,
            LeafKeyKind::Rsa => true,
        };
        if fits {
            Ok(Self { kind, raw })
        } else {
            Err(Error::UnsupportedSigScheme)
        }
    }

    /// The kind of key.
    pub fn kind(self) -> (r: LeafKeyKind)
        ensures
            r == self@.0,
    {
        self.kind
    }

    /// The key's bytes.
    pub fn raw(self) -> (r: &'a [u8])
        ensures
            r@ == self@.1,
            valid_key(self@.0, r@),
    {
        proof {
            use_type_invariant(&self);
        }
        self.raw
    }

    /// Verifies a CertificateVerify signature over `msg`. A scheme that is not one
    /// for the kind of key is refused.
    pub fn verify(self, scheme: SignatureScheme, msg: &[u8], signature: &[u8]) -> (r: Result<(), Error>)
        requires
            hashable(msg@),
        ensures
            match key_profile(self@.0, scheme@) {
                None => r is Err && r->Err_0 == Error::UnsupportedSigScheme,
                Some(p) => if signature_valid(p, self@.1, msg@, signature@) {
                    r is Ok
                } else {
                    r is Err && r->Err_0 == Error::BadCertificateVerify
                },
            },
    {
        proof {
            use_type_invariant(&self);
        }
        let raw = self.raw;
        let outcome = match (self.kind, scheme.wire_id()) {
            (LeafKeyKind::Ed25519, 0x0807) => {
                let pk: [u8; sig::PUBKEY_LEN] = to_array(raw);
                VerifyingKey::Ed25519(&pk).verify(msg, signature)
            },
            (LeafKeyKind::EcdsaP256, 0x0403) => VerifyingKey::EcdsaP256(raw).verify(msg, signature),
            (LeafKeyKind::EcdsaP384, 0x0503) => VerifyingKey::EcdsaP384(raw).verify(msg, signature),
            (LeafKeyKind::Rsa, 0x0804) => VerifyingKey::RsaPssSha256(raw).verify(msg, signature),
            (LeafKeyKind::Rsa, 0x0805) => VerifyingKey::RsaPssSha384(raw).verify(msg, signature),
            (LeafKeyKind::Rsa, 0x0806) => VerifyingKey::RsaPssSha512(raw).verify(msg, signature),
            _ => return Err(Error::UnsupportedSigScheme),
        };
        match outcome {
            Ok(()) => Ok(()),
            Err(_) => Err(Error::BadCertificateVerify),
        }
    }

    /// The key in a raw public key.
    pub fn from_spki(spki_der: &'a [u8]) -> (r: Result<Self, Error>)
        ensures
            match raw_spki_leaf(spki_der@) {
                Ok(k) => r is Ok && r->Ok_0@ == k,
                Err(e) => r is Err && r->Err_0 == e,
            },
    {
        let spki = match SubjectPublicKeyInfo::parse_standalone(spki_der) {
            Ok(s) => s,
            Err(_) => return Err(Error::Spki),
        };
        match spki.algorithm {
            PublicKey::Ed25519 => Self::from_x509_spki(spki),
            PublicKey::Ec(_) => Self::from_x509_spki(spki),
            _ => Err(Error::Spki),
        }
    }

    /// The key in a subject public key info.
    pub fn from_x509_spki(spki: SubjectPublicKeyInfo<'a>) -> (r: Result<Self, Error>)
        ensures
            match spki_leaf(spki@) {
                Ok(k) => r is Ok && r->Ok_0@ == k,
                Err(e) => r is Err && r->Err_0 == e,
            },
    {
        let kind = match spki.algorithm {
            PublicKey::Ed25519 => LeafKeyKind::Ed25519,
            PublicKey::Ec(NamedCurve::P256) => LeafKeyKind::EcdsaP256,
            PublicKey::Ec(NamedCurve::P384) => LeafKeyKind::EcdsaP384,
            PublicKey::Rsa => LeafKeyKind::Rsa,
            _ => return Err(Error::UnsupportedSigScheme),
        };
        Self::from_raw(kind, spki.subject_public_key)
    }

    /// The key in a certificate, and the subject public key info that holds it.
    pub fn parse_x509(leaf_der: &'a [u8]) -> (r: Result<(Self, &'a [u8]), Error>)
        ensures
            match certificate(leaf_der@) {
                Err(e) => r is Err && r->Err_0 == Error::BadCertificateParse(e),
                Ok(c) => match spki_leaf(c.tbs.spki) {
                    Ok(k) => r is Ok && r->Ok_0.0@ == k && r->Ok_0.1@ == c.tbs.spki.der,
                    Err(e) => r is Err && r->Err_0 == e,
                },
            },
    {
        let cert = match Cert::parse(leaf_der) {
            Ok(c) => c,
            Err(e) => return Err(Error::BadCertificateParse(e)),
        };
        let spki = cert.tbs.spki;
        let key = Self::from_x509_spki(spki)?;
        Ok((key, spki.raw_der))
    }
}

} // verus!
