//! Signatures: the schemes of the handshake, signing keys and verification.

use ring::signature;
use vstd::prelude::*;

use crate::codec::{bytes_eq, to_array, to_vec};
use crate::crypto::hash::hashable;
use crate::identity::cert::algorithm::{NamedCurve, PublicKey};
use crate::identity::cert::{certificate, Cert, SpkiView, SubjectPublicKeyInfo};

verus! {

pub const PUBKEY_LEN: usize = 32;

pub const ED25519_SIGNATURE_LEN: usize = 64;

pub const SEED_LEN: usize = 32;

pub const ECDSA_P256_PUBKEY_LEN: usize = 65;

pub const ECDSA_P384_PUBKEY_LEN: usize = 97;

pub const MAX_SIGNATURE_LEN: usize = 1024;

/// A TLS SignatureScheme code point. Wire decoding preserves unknown registry
/// entries for policy validation.
#[derive(Debug, Clone, Copy, PartialEq, Eq, Structural)]
pub struct SignatureScheme(u16);

impl View for SignatureScheme {
    type V = u16;

    closed spec fn view(&self) -> u16 {
        self.0
    }
}

impl SignatureScheme {
    pub const ECDSA_SECP256R1_SHA256: u16 = 0x0403;

    pub const ECDSA_SECP384R1_SHA384: u16 = 0x0503;

    pub const RSA_PSS_RSAE_SHA256: u16 = 0x0804;

    pub const RSA_PSS_RSAE_SHA384: u16 = 0x0805;

    pub const RSA_PSS_RSAE_SHA512: u16 = 0x0806;

    pub const ED25519: u16 = 0x0807;

    /// The code point.
    pub fn wire_id(self) -> (r: u16)
        ensures
            r == self@,
    {
        self.0
    }

    /// The scheme with code point `id`, known or not.
    pub fn from_wire_id(id: u16) -> (r: Self)
        ensures
            r@ == id,
    {
        Self(id)
    }
}

#[derive(Debug, Clone, Copy, PartialEq, Eq, Structural)]
pub enum Error {
    InvalidSeed,
    InvalidKey,
    VerifyFailed,
}

/// A way to verify a signature: the algorithm with its hash.
#[derive(Debug, Clone, Copy, PartialEq, Eq, Structural)]
pub enum VerificationProfile {
    RsaPkcs1Sha256,
    RsaPkcs1Sha384,
    RsaPkcs1Sha512,
    RsaPssSha256,
    RsaPssSha384,
    RsaPssSha512,
    EcdsaP256Sha256,
    EcdsaP384Sha384,
    Ed25519,
}

/// Whether `signature` is one over `message` by the owner of `key`.
pub uninterp spec fn signature_valid(
    profile: VerificationProfile,
    key: Seq<u8>,
    message: Seq<u8>,
    signature: Seq<u8>,
) -> bool;

/// `ring::signature::UnparsedPublicKey::verify`: whether the signature verifies is
/// a function of the algorithm, the key, the message and the signature. It panics
/// on a message that is too long to hash, which is left out.
#[verifier::external_body]
pub(crate) fn ring_verify(profile: VerificationProfile, key: &[u8], message: &[u8], sig: &[u8]) -> (r: bool)
    requires
        hashable(message@),
    ensures
        r == signature_valid(profile, key@, message@, sig@),
{
    let algorithm: &'static dyn signature::VerificationAlgorithm = match profile {
        VerificationProfile::RsaPkcs1Sha256 => &signature::RSA_PKCS1_2048_8192_SHA256,
        VerificationProfile::RsaPkcs1Sha384 => &signature::RSA_PKCS1_2048_8192_SHA384,
        VerificationProfile::RsaPkcs1Sha512 => &signature::RSA_PKCS1_2048_8192_SHA512,
        VerificationProfile::RsaPssSha256 => &signature::RSA_PSS_2048_8192_SHA256,
        VerificationProfile::RsaPssSha384 => &signature::RSA_PSS_2048_8192_SHA384,
        VerificationProfile::RsaPssSha512 => &signature::RSA_PSS_2048_8192_SHA512,
        VerificationProfile::EcdsaP256Sha256 => &signature::ECDSA_P256_SHA256_ASN1,
        VerificationProfile::EcdsaP384Sha384 => &signature::ECDSA_P384_SHA384_ASN1,
        VerificationProfile::Ed25519 => &signature::ED25519,
    };
    signature::UnparsedPublicKey::new(algorithm, key).verify(message, sig).is_ok()
}

/// The public key of the Ed25519 key pair with seed `seed`.
pub uninterp spec fn ed25519_public_key(seed: Seq<u8>) -> Option<Seq<u8>>;

/// The signature over `message` by the Ed25519 key pair with seed `seed`.
pub uninterp spec fn ed25519_signature(seed: Seq<u8>, message: Seq<u8>) -> Option<Seq<u8>>;

/// `ring::signature::Ed25519KeyPair::from_seed_unchecked` and its public key: a
/// function of the seed, 32 bytes long, given for exactly the seeds of 32 bytes.
#[verifier::external_body]
fn ring_ed25519_public(seed: &[u8]) -> (r: Option<Vec<u8>>)
    ensures
        r is Some == (seed@.len() == 32),
        match ed25519_public_key(seed@) {
            Some(pk) => r matches Some(v) && v@ == pk && pk.len() == 32,
            None => r is None,
        },
{
    let pair = signature::Ed25519KeyPair::from_seed_unchecked(seed).ok()?;
    Some(signature::KeyPair::public_key(&pair).as_ref().to_vec())
}

/// `ring::signature::Ed25519KeyPair::sign` with the key pair of a seed: a
/// function of the seed and the message, given for every seed that has a public
/// key; 64 bytes that verify under that key. It panics on a message that is too
/// long to hash, which is left out.
#[verifier::external_body]
fn ring_ed25519_sign(seed: &[u8], message: &[u8]) -> (r: Option<Vec<u8>>)
    requires
        hashable(message@),
    ensures
        match ed25519_signature(seed@, message@) {
            Some(sig) => r matches Some(v) && v@ == sig && sig.len() == 64,
            None => r is None,
        },
        ed25519_public_key(seed@) is Some ==> r is Some && signature_valid(
            VerificationProfile::Ed25519,
            ed25519_public_key(seed@)->0,
            message@,
            r->0@,
        ),
{
    let pair = signature::Ed25519KeyPair::from_seed_unchecked(seed).ok()?;
    Some(pair.sign(message).as_ref().to_vec())
}

/// A curve that signatures are made on.
#[derive(Debug, Clone, Copy, PartialEq, Eq, Structural)]
pub enum EcdsaCurve {
    P256,
    P384,
}

/// How a signature on a curve is verified.
pub open spec fn ecdsa_profile(curve: EcdsaCurve) -> VerificationProfile {
    match curve {
        EcdsaCurve::P256 => VerificationProfile::EcdsaP256Sha256,
        EcdsaCurve::P384 => VerificationProfile::EcdsaP384Sha384,
    }
}

/// The public key of the key pair on `curve` that a PKCS#8 document holds.
pub uninterp spec fn ecdsa_public_key(curve: EcdsaCurve, pkcs8: Seq<u8>) -> Option<Seq<u8>>;

/// `ring::signature::EcdsaKeyPair::from_pkcs8` and its public key: a function of
/// the curve and the document. Nothing comes back where the document holds no key
/// pair on the curve, or where the system has no randomness; that a document with
/// a key pair gives its key is therefore left unsaid.
#[verifier::external_body]
fn ring_ecdsa_public(curve: EcdsaCurve, pkcs8: &[u8]) -> (r: Option<Vec<u8>>)
    ensures
        r matches Some(v) ==> ecdsa_public_key(curve, pkcs8@) == Some(v@),
{
    let algorithm = match curve {
        EcdsaCurve::P256 => &signature::ECDSA_P256_SHA256_ASN1_SIGNING,
        EcdsaCurve::P384 => &signature::ECDSA_P384_SHA384_ASN1_SIGNING,
    };
    let rng = ring::rand::SystemRandom::new();
    let pair = signature::EcdsaKeyPair::from_pkcs8(algorithm, pkcs8, &rng).ok()?;
    Some(signature::KeyPair::public_key(&pair).as_ref().to_vec())
}

/// `ring::signature::EcdsaKeyPair::sign` with the key pair of a PKCS#8 document:
/// signatures rest on chance; each verifies under the document's public key. It
/// panics on a message that is too long to hash, which is left out.
#[verifier::external_body]
fn ring_ecdsa_sign(curve: EcdsaCurve, pkcs8: &[u8], message: &[u8]) -> (r: Option<Vec<u8>>)
    requires
        hashable(message@),
    ensures
        r matches Some(v) ==> ecdsa_public_key(curve, pkcs8@) is Some && signature_valid(
            ecdsa_profile(curve),
            ecdsa_public_key(curve, pkcs8@)->0,
            message@,
            v@,
        ),
{
    let algorithm = match curve {
        EcdsaCurve::P256 => &signature::ECDSA_P256_SHA256_ASN1_SIGNING,
        EcdsaCurve::P384 => &signature::ECDSA_P384_SHA384_ASN1_SIGNING,
    };
    let rng = ring::rand::SystemRandom::new();
    let pair = signature::EcdsaKeyPair::from_pkcs8(algorithm, pkcs8, &rng).ok()?;
    Some(pair.sign(&rng, message).ok()?.as_ref().to_vec())
}

/// The public key of the RSA key pair that a PKCS#8 document holds, and the
/// length of its modulus.
pub uninterp spec fn rsa_public_key(pkcs8: Seq<u8>) -> Option<(Seq<u8>, usize)>;

/// `ring::signature::RsaKeyPair::from_pkcs8`, its public key and that key's
/// modulus length: a function of the document.
#[verifier::external_body]
fn ring_rsa_public(pkcs8: &[u8]) -> (r: Option<(Vec<u8>, usize)>)
    ensures
        match rsa_public_key(pkcs8@) {
            Some((pk, n)) => r matches Some((v, m)) && v@ == pk && m == n,
            None => r is None,
        },
{
    let pair = signature::RsaKeyPair::from_pkcs8(pkcs8).ok()?;
    let key = signature::KeyPair::public_key(&pair).as_ref().to_vec();
    Some((key, pair.public().modulus_len()))
}

/// `ring::signature::RsaKeyPair::sign` under RSA-PSS with SHA-256 and the key pair
/// of a PKCS#8 document: signatures rest on chance; each is as long as the modulus
/// and verifies under the document's public key. It panics on a message that is too
/// long to hash, which is left out.
#[verifier::external_body]
fn ring_rsa_sign(pkcs8: &[u8], message: &[u8]) -> (r: Option<Vec<u8>>)
    requires
        hashable(message@),
    ensures
        r matches Some(v) ==> (rsa_public_key(pkcs8@) matches Some((pk, n)) && v@.len() == n
            && signature_valid(VerificationProfile::RsaPssSha256, pk, message@, v@)),
{
    let pair = signature::RsaKeyPair::from_pkcs8(pkcs8).ok()?;
    let mut out = vec![0u8; pair.public().modulus_len()];
    let rng = ring::rand::SystemRandom::new();
    pair.sign(&signature::RSA_PSS_SHA256, &rng, message, &mut out).ok()?;
    Some(out)
}

/// A private key that handshakes are signed with.
pub struct SigningKey {
    inner: SigningKeyInner,
}

enum SigningKeyInner {
    Ed25519 { seed: [u8; SEED_LEN], pubkey: [u8; PUBKEY_LEN] },
    Ecdsa { curve: EcdsaCurve, pkcs8: Vec<u8>, pubkey_uncompressed: Vec<u8> },
    Rsa { pkcs8: Vec<u8>, public_key_der: Vec<u8>, modulus_len: usize },
}

/// A private key and its public key.
#[verifier::ext_equal]
pub enum SigningKeyView {
    Ed25519 { seed: Seq<u8>, public: Seq<u8> },
    Ecdsa { curve: EcdsaCurve, pkcs8: Seq<u8>, public: Seq<u8> },
    Rsa { pkcs8: Seq<u8>, public: Seq<u8>, modulus_len: usize },
}

impl View for SigningKey {
    type V = SigningKeyView;

    closed spec fn view(&self) -> SigningKeyView {
        match self.inner {
            SigningKeyInner::Ed25519 { seed, pubkey } => SigningKeyView::Ed25519 {
                seed: seed@,
                public: pubkey@,
            },
            SigningKeyInner::Ecdsa { curve, pkcs8, pubkey_uncompressed } => SigningKeyView::Ecdsa {
                curve,
                pkcs8: pkcs8@,
                public: pubkey_uncompressed@,
            },
            SigningKeyInner::Rsa { pkcs8, public_key_der, modulus_len } => SigningKeyView::Rsa {
                pkcs8: pkcs8@,
                public: public_key_der@,
                modulus_len,
            },
        }
    }
}

impl SigningKeyView {
    /// Whether the public key is the private key's.
    pub open spec fn paired(self) -> bool {
        match self {
            SigningKeyView::Ed25519 { seed, public } => seed.len() == 32 && public.len() == 32
                && ed25519_public_key(seed) == Some(public),
            SigningKeyView::Ecdsa { curve, pkcs8, public } => ecdsa_public_key(curve, pkcs8) == Some(
                public,
            ),
            SigningKeyView::Rsa { pkcs8, public, modulus_len } => rsa_public_key(pkcs8) == Some(
                (public, modulus_len),
            ),
        }
    }

    /// Whether a certificate's key is this key.
    pub open spec fn is_key_of(self, spki: SpkiView) -> bool {
        match self {
            SigningKeyView::Ed25519 { public, .. } => spki.algorithm == PublicKey::Ed25519 && spki.key
                == public,
            SigningKeyView::Ecdsa { curve: EcdsaCurve::P256, public, .. } => spki.algorithm
                == PublicKey::Ec(NamedCurve::P256) && spki.key == public,
            SigningKeyView::Ecdsa { curve: EcdsaCurve::P384, public, .. } => spki.algorithm
                == PublicKey::Ec(NamedCurve::P384) && spki.key == public,
            SigningKeyView::Rsa { public, .. } => spki.algorithm == PublicKey::Rsa && spki.key == public,
        }
    }

    /// Whether a chain's first certificate holds this key and all of them can be
    /// read.
    pub open spec fn heads_chain(self, chain: Seq<Seq<u8>>) -> bool {
        &&& chain.len() > 0
        &&& forall|i: int| 0 <= i < chain.len() ==> certificate(#[trigger] chain[i]) is Ok
        &&& self.is_key_of(certificate(chain[0])->Ok_0.tbs.spki)
    }

    /// The code point of the scheme that the key signs under.
    pub open spec fn scheme(self) -> u16 {
        match self {
            SigningKeyView::Ed25519 { .. } => SignatureScheme::ED25519,
            SigningKeyView::Ecdsa { curve: EcdsaCurve::P256, .. } => SignatureScheme::ECDSA_SECP256R1_SHA256,
            SigningKeyView::Ecdsa { curve: EcdsaCurve::P384, .. } => SignatureScheme::ECDSA_SECP384R1_SHA384,
            SigningKeyView::Rsa { .. } => SignatureScheme::RSA_PSS_RSAE_SHA256,
        }
    }

    /// What is known of every signature that the key makes over `message`.
    pub open spec fn signs(self, message: Seq<u8>, sig: Seq<u8>) -> bool {
        &&& sig.len() <= MAX_SIGNATURE_LEN
        &&& match self {
            SigningKeyView::Ed25519 { seed, public } => {
                &&& ed25519_signature(seed, message) == Some(sig)
                &&& signature_valid(VerificationProfile::Ed25519, public, message, sig)
            },
            SigningKeyView::Ecdsa { curve, public, .. } => signature_valid(
                ecdsa_profile(curve),
                public,
                message,
                sig,
            ),
            SigningKeyView::Rsa { public, modulus_len, .. } => {
                &&& sig.len() == modulus_len
                &&& signature_valid(VerificationProfile::RsaPssSha256, public, message, sig)
            },
        }
    }
}

impl SigningKey {
    #[verifier::type_invariant]
    spec fn valid(self) -> bool {
        self@.paired()
    }

    /// The Ed25519 key pair with seed `seed`.
    pub fn from_seed(seed: &[u8; SEED_LEN]) -> (r: Result<Self, Error>)
        ensures
            r is Ok,
            ed25519_public_key(seed@) matches Some(public) && r->Ok_0@ == (SigningKeyView::Ed25519 {
                seed: seed@,
                public,
            }),
    {
        match ring_ed25519_public(seed) {
            Some(pk) => Ok(
                Self {
                    inner: SigningKeyInner::Ed25519 { seed: *seed, pubkey: to_array(pk.as_slice()) },
                },
            ),
            None => Err(Error::InvalidSeed),
        }
    }

    /// The key pair of a PKCS#8 document whose public key is `public`, where it has
    /// one.
    fn ecdsa(curve: EcdsaCurve, pkcs8: &[u8], public: Option<Vec<u8>>) -> (r: Result<Self, Error>)
        requires
            public matches Some(pk) ==> ecdsa_public_key(curve, pkcs8@) == Some(pk@),
        ensures
            match public {
                Some(pk) => r is Ok && r->Ok_0@ == (SigningKeyView::Ecdsa {
                    curve,
                    pkcs8: pkcs8@,
                    public: pk@,
                }),
                None => r is Err && r->Err_0 == Error::InvalidKey,
            },
    {
        match public {
            Some(pk) => Ok(
                Self {
                    inner: SigningKeyInner::Ecdsa {
                        curve,
                        pkcs8: to_vec(pkcs8),
                        pubkey_uncompressed: pk,
                    },
                },
            ),
            None => Err(Error::InvalidKey),
        }
    }

    /// The P-256 key pair that a PKCS#8 document holds. Besides a document that holds
    /// none, a system without randomness gives the error.
    pub fn from_ecdsa_p256_pkcs8(pkcs8: &[u8]) -> (r: Result<Self, Error>)
        ensures
            match r {
                Ok(k) => ecdsa_public_key(EcdsaCurve::P256, pkcs8@) matches Some(public) && k@ == (
                SigningKeyView::Ecdsa { curve: EcdsaCurve::P256, pkcs8: pkcs8@, public }),
                Err(e) => e == Error::InvalidKey,
            },
    {
        let public = ring_ecdsa_public(EcdsaCurve::P256, pkcs8);
        Self::ecdsa(EcdsaCurve::P256, pkcs8, public)
    }

    /// The P-384 key pair that a PKCS#8 document holds. Besides a document that holds
    /// none, a system without randomness gives the error.
    pub fn from_ecdsa_p384_pkcs8(pkcs8: &[u8]) -> (r: Result<Self, Error>)
        ensures
            match r {
                Ok(k) => ecdsa_public_key(EcdsaCurve::P384, pkcs8@) matches Some(public) && k@ == (
                SigningKeyView::Ecdsa { curve: EcdsaCurve::P384, pkcs8: pkcs8@, public }),
                Err(e) => e == Error::InvalidKey,
            },
    {
        let public = ring_ecdsa_public(EcdsaCurve::P384, pkcs8);
        Self::ecdsa(EcdsaCurve::P384, pkcs8, public)
    }

    /// The RSA key pair that a PKCS#8 document holds.
    pub fn from_rsa_pkcs8(pkcs8: &[u8]) -> (r: Result<Self, Error>)
        ensures
            match rsa_public_key(pkcs8@) {
                Some((public, modulus_len)) => r is Ok && r->Ok_0@ == (SigningKeyView::Rsa {
                    pkcs8: pkcs8@,
                    public,
                    modulus_len,
                }),
                None => r is Err && r->Err_0 == Error::InvalidKey,
            },
    {
        match ring_rsa_public(pkcs8) {
            Some((public_key_der, modulus_len)) => Ok(
                Self {
                    inner: SigningKeyInner::Rsa { pkcs8: to_vec(pkcs8), public_key_der, modulus_len },
                },
            ),
            None => Err(Error::InvalidKey),
        }
    }

    /// The public key, where this is an Ed25519 key.
    pub fn pubkey(&self) -> (r: Option<&[u8; PUBKEY_LEN]>)
        ensures
            match self@ {
                SigningKeyView::Ed25519 { public, .. } => r matches Some(k) && k@ == public,
                _ => r is None,
            },
    {
        match &self.inner {
            SigningKeyInner::Ed25519 { pubkey, .. } => Some(pubkey),
            _ => None,
        }
    }

    /// The public key, where this is a P-256 key.
    pub fn ecdsa_p256_pubkey(&self) -> (r: Option<&[u8]>)
        ensures
            match self@ {
                SigningKeyView::Ecdsa { curve: EcdsaCurve::P256, public, .. } => r matches Some(k)
                    && k@ == public,
                _ => r is None,
            },
    {
        match &self.inner {
            SigningKeyInner::Ecdsa { curve: EcdsaCurve::P256, pubkey_uncompressed, .. } => Some(
                pubkey_uncompressed.as_slice(),
            ),
            _ => None,
        }
    }

    /// The public key, where this is a P-384 key.
    pub fn ecdsa_p384_pubkey(&self) -> (r: Option<&[u8]>)
        ensures
            match self@ {
                SigningKeyView::Ecdsa { curve: EcdsaCurve::P384, public, .. } => r matches Some(k)
                    && k@ == public,
                _ => r is None,
            },
    {
        match &self.inner {
            SigningKeyInner::Ecdsa { curve: EcdsaCurve::P384, pubkey_uncompressed, .. } => Some(
                pubkey_uncompressed.as_slice(),
            ),
            _ => None,
        }
    }

    /// The public key, where this is an RSA key.
    pub fn rsa_public_key_der(&self) -> (r: Option<&[u8]>)
        ensures
            match self@ {
                SigningKeyView::Rsa { public, .. } => r matches Some(k) && k@ == public,
                _ => r is None,
            },
    {
        match &self.inner {
            SigningKeyInner::Rsa { public_key_der, .. } => Some(public_key_der.as_slice()),
            _ => None,
        }
    }

    /// Whether a certificate's key is this key.
    pub fn matches_spki(&self, spki: &SubjectPublicKeyInfo<'_>) -> (r: bool)
        ensures
            r == self@.is_key_of(spki@),
    {
        let key = spki.subject_public_key;
        match (&self.inner, spki.algorithm) {
            (SigningKeyInner::Ed25519 { pubkey, .. }, PublicKey::Ed25519) => bytes_eq(key, pubkey),
            (
                SigningKeyInner::Ecdsa { curve: EcdsaCurve::P256, pubkey_uncompressed, .. },
                PublicKey::Ec(NamedCurve::P256),
            ) => bytes_eq(key, pubkey_uncompressed.as_slice()),
            (
                SigningKeyInner::Ecdsa { curve: EcdsaCurve::P384, pubkey_uncompressed, .. },
                PublicKey::Ec(NamedCurve::P384),
            ) => bytes_eq(key, pubkey_uncompressed.as_slice()),
            (SigningKeyInner::Rsa { public_key_der, .. }, PublicKey::Rsa) => bytes_eq(
                key,
                public_key_der.as_slice(),
            ),
            _ => false,
        }
    }

    /// Whether a chain's first certificate holds this key and all of them can be
    /// read.
    pub fn matches_x509_chain(&self, chain_der: &[Vec<u8>]) -> (r: bool)
        ensures
            r == self@.heads_chain(chain_der@.map_values(|c: Vec<u8>| c@)),
    {
        let ghost chain = chain_der@.map_values(|c: Vec<u8>| c@);
        if chain_der.len() == 0 {
            return false;
        }
        assert(chain[0] == chain_der@[0]@);
        let leaf = match Cert::parse(chain_der[0].as_slice()) {
            Ok(c) => c,
            Err(_) => return false,
        };
        if !self.matches_spki(&leaf.tbs.spki) {
            return false;
        }
        let mut i: usize = 1;
        while i < chain_der.len()
            invariant
                1 <= i <= chain_der.len(),
                chain == chain_der@.map_values(|c: Vec<u8>| c@),
                certificate(chain[0]) is Ok,
                self@.is_key_of(certificate(chain[0])->Ok_0.tbs.spki),
                forall|j: int| 1 <= j < i ==> certificate(#[trigger] chain[j]) is Ok,
            decreases chain_der.len() - i,
        {
            assert(chain[i as int] == chain_der@[i as int]@);
            if Cert::parse(chain_der[i].as_slice()).is_err() {
                assert(certificate(chain[i as int]) is Err);
                return false;
            }
            i = i + 1;
        }
        assert forall|j: int| 0 <= j < chain.len() implies certificate(#[trigger] chain[j]) is Ok by {
            if j == 0 {
                assert(certificate(chain[0]) is Ok);
            }
        }
        true
    }

    /// Signs `msg`. An Ed25519 key always does. What is signed verifies under the
    /// public key.
    pub fn sign(&self, msg: &[u8]) -> (r: Result<Vec<u8>, Error>)
        requires
            hashable(msg@),
        ensures
            r matches Ok(sig) ==> self@.signs(msg@, sig@),
            r is Err ==> r->Err_0 == Error::InvalidKey,
            self@ is Ed25519 ==> r is Ok,
            self@ matches SigningKeyView::Rsa { modulus_len, .. } ==> modulus_len
                > MAX_SIGNATURE_LEN ==> r is Err,
    {
        proof {
            use_type_invariant(self);
        }
        let made = match &self.inner {
            SigningKeyInner::Ed25519 { seed, .. } => ring_ed25519_sign(seed, msg),
            SigningKeyInner::Ecdsa { curve, pkcs8, .. } => ring_ecdsa_sign(
                *curve,
                pkcs8.as_slice(),
                msg,
            ),
            SigningKeyInner::Rsa { pkcs8, modulus_len, .. } => {
                if *modulus_len > MAX_SIGNATURE_LEN {
                    return Err(Error::InvalidKey);
                }
                ring_rsa_sign(pkcs8.as_slice(), msg)
            },
        };
        Self::bounded(made)
    }

    /// A signature that was made and is not too long.
    pub fn bounded(made: Option<Vec<u8>>) -> (r: Result<Vec<u8>, Error>)
        ensures
            match made {
                Some(sig) => if sig@.len() <= MAX_SIGNATURE_LEN {
                    r is Ok && r->Ok_0 == sig
                } else {
                    r is Err && r->Err_0 == Error::InvalidKey
                },
                None => r is Err && r->Err_0 == Error::InvalidKey,
            },
    {
        match made {
            Some(sig) => if sig.len() <= MAX_SIGNATURE_LEN {
                Ok(sig)
            } else {
                Err(Error::InvalidKey)
            },
            None => Err(Error::InvalidKey),
        }
    }

    /// The scheme that the key signs under.
    pub fn sig_scheme(&self) -> (r: SignatureScheme)
        ensures
            r@ == self@.scheme(),
    {
        let id: u16 = match &self.inner {
            SigningKeyInner::Ed25519 { .. } => SignatureScheme::ED25519,
            SigningKeyInner::Ecdsa { curve: EcdsaCurve::P256, .. } => {
                SignatureScheme::ECDSA_SECP256R1_SHA256
            },
            SigningKeyInner::Ecdsa { curve: EcdsaCurve::P384, .. } => {
                SignatureScheme::ECDSA_SECP384R1_SHA384
            },
            SigningKeyInner::Rsa { .. } => SignatureScheme::RSA_PSS_RSAE_SHA256,
        };
        SignatureScheme(id)
    }

    /// How long a signature can be.
    pub fn signature_len_upper_bound(&self) -> (r: usize)
        ensures
            r == match self@ {
                SigningKeyView::Ed25519 { .. } => 64,
                SigningKeyView::Ecdsa { curve: EcdsaCurve::P256, .. } => 72,
                SigningKeyView::Ecdsa { curve: EcdsaCurve::P384, .. } => 104,
                SigningKeyView::Rsa { modulus_len, .. } => modulus_len,
            },
    {
        match &self.inner {
            SigningKeyInner::Ed25519 { .. } => ED25519_SIGNATURE_LEN,
            SigningKeyInner::Ecdsa { curve: EcdsaCurve::P256, .. } => 72,
            SigningKeyInner::Ecdsa { curve: EcdsaCurve::P384, .. } => 104,
            SigningKeyInner::Rsa { modulus_len, .. } => *modulus_len,
        }
    }

    /// Whether this is an Ed25519 key.
    pub fn is_ed25519(&self) -> (r: bool)
        ensures
            r == (self@ is Ed25519),
    {
        match &self.inner {
            SigningKeyInner::Ed25519 { .. } => true,
            _ => false,
        }
    }
}

/// A public key and the scheme that its signatures are verified under.
pub enum VerifyingKey<'a> {
    Ed25519(&'a [u8; PUBKEY_LEN]),
    EcdsaP256(&'a [u8]),
    EcdsaP384(&'a [u8]),
    RsaPssSha256(&'a [u8]),
    RsaPssSha384(&'a [u8]),
    RsaPssSha512(&'a [u8]),
}

impl<'a> VerifyingKey<'a> {
    /// How signatures are verified.
    pub open spec fn profile(self) -> VerificationProfile {
        match self {
            VerifyingKey::Ed25519(_) => VerificationProfile::Ed25519,
            VerifyingKey::EcdsaP256(_) => VerificationProfile::EcdsaP256Sha256,
            VerifyingKey::EcdsaP384(_) => VerificationProfile::EcdsaP384Sha384,
            VerifyingKey::RsaPssSha256(_) => VerificationProfile::RsaPssSha256,
            VerifyingKey::RsaPssSha384(_) => VerificationProfile::RsaPssSha384,
            VerifyingKey::RsaPssSha512(_) => VerificationProfile::RsaPssSha512,
        }
    }

    /// The key.
    pub open spec fn key(self) -> Seq<u8> {
        match self {
            VerifyingKey::Ed25519(k) => k@,
            VerifyingKey::EcdsaP256(k) => k@,
            VerifyingKey::EcdsaP384(k) => k@,
            VerifyingKey::RsaPssSha256(k) => k@,
            VerifyingKey::RsaPssSha384(k) => k@,
            VerifyingKey::RsaPssSha512(k) => k@,
        }
    }

    /// Verifies a signature over `msg`.
    pub fn verify(&self, msg: &[u8], sig: &[u8]) -> (r: Result<(), Error>)
        requires
            hashable(msg@),
        ensures
            signature_valid(self.profile(), self.key(), msg@, sig@) ==> r is Ok,
            !signature_valid(self.profile(), self.key(), msg@, sig@) ==> r == Err::<(), Error>(
                Error::VerifyFailed,
            ),
    {
        let good = match self {
            VerifyingKey::Ed25519(k) => ring_verify(VerificationProfile::Ed25519, *k, msg, sig),
            VerifyingKey::EcdsaP256(k) => ring_verify(
                VerificationProfile::EcdsaP256Sha256,
                k,
                msg,
                sig,
            ),
            VerifyingKey::EcdsaP384(k) => ring_verify(
                VerificationProfile::EcdsaP384Sha384,
                k,
                msg,
                sig,
            ),
            VerifyingKey::RsaPssSha256(k) => ring_verify(
                VerificationProfile::RsaPssSha256,
                k,
                msg,
                sig,
            ),
            VerifyingKey::RsaPssSha384(k) => ring_verify(
                VerificationProfile::RsaPssSha384,
                k,
                msg,
                sig,
            ),
            VerifyingKey::RsaPssSha512(k) => ring_verify(
                VerificationProfile::RsaPssSha512,
                k,
                msg,
                sig,
            ),
        };
        if good {
            Ok(())
        } else {
            Err(Error::VerifyFailed)
        }
    }
}

} // verus!
