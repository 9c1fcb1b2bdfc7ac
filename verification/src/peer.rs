//! The key of a peer's certificate, and the check of its CertificateVerify. A
//! client checks its server with it, and a server its clients.

use vstd::prelude::*;

use crate::codec::{to_array, to_vec};
use crate::crypto::hash::hashable;
use crate::crypto::sig::{self, signature_valid, VerificationProfile, VerifyingKey};
use crate::identity::cert::algorithm::PublicKey;
use crate::identity::cert::{certificate, Cert};
use crate::identity::spki::{spki_key, KeyView, SubjectPublicKey};
use crate::proto::{
    SIG_ECDSA_SECP256R1_SHA256, SIG_ECDSA_SECP384R1_SHA384, SIG_ED25519, SIG_RSA_PSS_RSAE_SHA256,
    SIG_RSA_PSS_RSAE_SHA384, SIG_RSA_PSS_RSAE_SHA512,
};
use crate::Error;

verus! {

#[derive(Debug, Clone, Copy, PartialEq, Eq, Structural)]
pub enum LeafKeyKind {
    Ed25519,
    Ecdsa,
    Rsa,
}

/// How a signature under a scheme is verified with a key of a kind; `None` where
/// the scheme is not one for such a key.
pub open spec fn leaf_profile(kind: LeafKeyKind, scheme: u16) -> Option<VerificationProfile> {
    if kind == LeafKeyKind::Ed25519 && scheme == SIG_ED25519 {
        Some(VerificationProfile::Ed25519)
    } else if kind == LeafKeyKind::Ecdsa && scheme == SIG_ECDSA_SECP256R1_SHA256 {
        Some(VerificationProfile::EcdsaP256Sha256)
    } else if kind == LeafKeyKind::Ecdsa && scheme == SIG_ECDSA_SECP384R1_SHA384 {
        Some(VerificationProfile::EcdsaP384Sha384)
    } else if kind == LeafKeyKind::Rsa && scheme == SIG_RSA_PSS_RSAE_SHA256 {
        Some(VerificationProfile::RsaPssSha256)
    } else if kind == LeafKeyKind::Rsa && scheme == SIG_RSA_PSS_RSAE_SHA384 {
        Some(VerificationProfile::RsaPssSha384)
    } else if kind == LeafKeyKind::Rsa && scheme == SIG_RSA_PSS_RSAE_SHA512 {
        Some(VerificationProfile::RsaPssSha512)
    } else {
        None
    }
}

/// Why a CertificateVerify signature is not accepted, if it is not.
pub open spec fn leaf_verdict(
    kind: LeafKeyKind,
    raw: Seq<u8>,
    scheme: u16,
    msg: Seq<u8>,
    sig: Seq<u8>,
) -> Result<(), Error> {
    match leaf_profile(kind, scheme) {
        None => Err(Error::UnsupportedSigScheme),
        Some(p) => if (p == VerificationProfile::Ed25519 && raw.len() != sig::PUBKEY_LEN)
            || !signature_valid(p, raw, msg, sig) {
            Err(Error::BadCertificateVerify)
        } else {
            Ok(())
        },
    }
}

/// A key of one kind is used with schemes of that kind only.
pub proof fn law_scheme_decides_kind(a: LeafKeyKind, b: LeafKeyKind, scheme: u16)
    requires
        leaf_profile(a, scheme) is Some,
        leaf_profile(b, scheme) is Some,
    ensures
        a == b,
{
}

/// A peer's public key.
pub struct LeafKey {
    pub kind: LeafKeyKind,
    pub raw: Vec<u8>,
}

impl LeafKey {
    /// Verifies a CertificateVerify signature over `msg`. A scheme that is not one
    /// for the kind of key is refused.
    pub fn verify(&self, scheme: u16, msg: &[u8], sig: &[u8]) -> (r: Result<(), Error>)
        requires
            hashable(msg@),
        ensures
            r == leaf_verdict(self.kind, self.raw@, scheme, msg@, sig@),
    {
        let raw = self.raw.as_slice();
        let outcome = match (self.kind, scheme) {
            (LeafKeyKind::Ed25519, 0x0807) => {
                if raw.len() != sig::PUBKEY_LEN {
                    return Err(Error::BadCertificateVerify);
                }
                let pk: [u8; sig::PUBKEY_LEN] = to_array(raw);
                VerifyingKey::Ed25519(&pk).verify(msg, sig)
            },
            (LeafKeyKind::Ecdsa, 0x0403) => VerifyingKey::EcdsaP256(raw).verify(msg, sig),
            (LeafKeyKind::Ecdsa, 0x0503) => VerifyingKey::EcdsaP384(raw).verify(msg, sig),
            (LeafKeyKind::Rsa, 0x0804) => VerifyingKey::RsaPssSha256(raw).verify(msg, sig),
            (LeafKeyKind::Rsa, 0x0805) => VerifyingKey::RsaPssSha384(raw).verify(msg, sig),
            (LeafKeyKind::Rsa, 0x0806) => VerifyingKey::RsaPssSha512(raw).verify(msg, sig),
            _ => return Err(Error::UnsupportedSigScheme),
        };
        match outcome {
            Ok(()) => Ok(()),
            Err(_) => Err(Error::BadCertificateVerify),
        }
    }
}

/// The key in a raw public key, a bare subject public key info.
pub open spec fn raw_leaf(spki_der: Seq<u8>) -> Result<(LeafKeyKind, Seq<u8>), Error> {
    match spki_key(spki_der) {
        Err(_) => Err(Error::Spki),
        Ok(KeyView::Ed25519(k)) => Ok((LeafKeyKind::Ed25519, k)),
        Ok(KeyView::EcdsaP256(k)) => Ok((LeafKeyKind::Ecdsa, k)),
        Ok(KeyView::EcdsaP384(k)) => Ok((LeafKeyKind::Ecdsa, k)),
    }
}

/// The key in a raw public key, a bare subject public key info.
pub fn raw_public_key_leaf(spki_der: &[u8]) -> (r: Result<LeafKey, Error>)
    ensures
        match raw_leaf(spki_der@) {
            Ok((kind, raw)) => r is Ok && r->Ok_0.kind == kind && r->Ok_0.raw@ == raw,
            Err(e) => r is Err && r->Err_0 == e,
        },
{
    match SubjectPublicKey::decode(spki_der) {
        Err(_) => Err(Error::Spki),
        Ok(SubjectPublicKey::Ed25519(pk)) => Ok(
            LeafKey { kind: LeafKeyKind::Ed25519, raw: to_vec(&pk) },
        ),
        Ok(SubjectPublicKey::EcdsaP256(raw)) => Ok(LeafKey { kind: LeafKeyKind::Ecdsa, raw }),
        Ok(SubjectPublicKey::EcdsaP384(raw)) => Ok(LeafKey { kind: LeafKeyKind::Ecdsa, raw }),
    }
}

/// The key in a certificate, with the encoding that holds it.
pub open spec fn x509_leaf(leaf_der: Seq<u8>) -> Result<(LeafKeyKind, Seq<u8>, Seq<u8>), Error> {
    match certificate(leaf_der) {
        Err(e) => Err(Error::BadCertificateParse(e)),
        Ok(c) => match c.tbs.spki.algorithm {
            PublicKey::Ed25519 => Ok((LeafKeyKind::Ed25519, c.tbs.spki.key, c.tbs.spki.der)),
            PublicKey::Ec(_) => Ok((LeafKeyKind::Ecdsa, c.tbs.spki.key, c.tbs.spki.der)),
            PublicKey::Rsa => Ok((LeafKeyKind::Rsa, c.tbs.spki.key, c.tbs.spki.der)),
            _ => Err(Error::UnsupportedSigScheme),
        },
    }
}

/// The key in a certificate, and the subject public key info that holds it, which
/// callers pin. No chain is validated.
pub fn x509_leaf_key(leaf_der: &[u8]) -> (r: Result<(LeafKey, Vec<u8>), Error>)
    ensures
        match x509_leaf(leaf_der@) {
            Ok((kind, raw, spki)) => {
                &&& r is Ok
                &&& r->Ok_0.0.kind == kind
                &&& r->Ok_0.0.raw@ == raw
                &&& r->Ok_0.1@ == spki
            },
            Err(e) => r is Err && r->Err_0 == e,
        },
{
    let cert = match Cert::parse(leaf_der) {
        Ok(c) => c,
        Err(e) => return Err(Error::BadCertificateParse(e)),
    };
    let spki = cert.tbs.spki;
    let kind = match spki.algorithm {
        PublicKey::Ed25519 => LeafKeyKind::Ed25519,
        PublicKey::Ec(_) => LeafKeyKind::Ecdsa,
        PublicKey::Rsa => LeafKeyKind::Rsa,
        _ => return Err(Error::UnsupportedSigScheme),
    };
    Ok((LeafKey { kind, raw: to_vec(spki.subject_public_key) }, to_vec(spki.raw_der)))
}

} // verus!
