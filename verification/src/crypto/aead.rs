//! Authenticated encryption under a key, a per-connection IV and a record
//! sequence number.

use ring::aead;
use vstd::prelude::*;
use vstd::slice::slice_subrange;

use crate::codec::{be64, lemma_be64_round_trip, put_u64};
use crate::crypto::hash::wipe;

verus! {

/// An authenticated cipher.
#[derive(Debug, Clone, Copy, PartialEq, Eq, Structural)]
pub enum AeadAlgorithm {
    Aes128Gcm,
    Aes256Gcm,
    ChaCha20Poly1305,
}

/// How long a cipher's key is, in bytes.
pub open spec fn key_len(alg: AeadAlgorithm) -> nat {
    match alg {
        AeadAlgorithm::Aes128Gcm => 16,
        AeadAlgorithm::Aes256Gcm => 32,
        AeadAlgorithm::ChaCha20Poly1305 => 32,
    }
}

impl AeadAlgorithm {
    /// How long the cipher's key is, in bytes.
    pub fn key_len(self) -> (r: usize)
        ensures
            r == key_len(self),
    {
        match self {
            AeadAlgorithm::Aes128Gcm => 16,
            AeadAlgorithm::Aes256Gcm => 32,
            AeadAlgorithm::ChaCha20Poly1305 => 32,
        }
    }
}

pub const TAG_LEN: usize = 16;

pub const NONCE_LEN: usize = 12;

/// The ciphertext of `plaintext` with its tag behind it.
pub uninterp spec fn sealed(
    alg: AeadAlgorithm,
    key: Seq<u8>,
    nonce: Seq<u8>,
    aad: Seq<u8>,
    plaintext: Seq<u8>,
) -> Seq<u8>;

/// The plaintext of `ciphertext`, which has its tag behind it, where the tag is
/// the right one.
pub uninterp spec fn opened(
    alg: AeadAlgorithm,
    key: Seq<u8>,
    nonce: Seq<u8>,
    aad: Seq<u8>,
    ciphertext: Seq<u8>,
) -> Option<Seq<u8>>;

/// `ring::aead::LessSafeKey::seal_in_place_append_tag` under a key of the right
/// length and inputs within the cipher's limits, on which it succeeds: the result
/// is a function of the arguments, 16 bytes longer than the plaintext, and opens
/// to the plaintext under the same key, nonce and additional data.
#[verifier::external_body]
pub(crate) fn ring_seal(alg: AeadAlgorithm, key: &[u8], nonce: [u8; 12], aad: &[u8], plaintext: &[u8]) -> (r: Option<
    Vec<u8>,
>)
    requires
        key@.len() == key_len(alg),
        aad@.len() <= 0xff_ffff,
        plaintext@.len() <= 0xff_ffff,
    ensures
        r is Some,
        r->0@ == sealed(alg, key@, nonce@, aad@, plaintext@),
        r->0@.len() == plaintext@.len() + 16,
        opened(alg, key@, nonce@, aad@, r->0@) == Some(plaintext@),
{
    let algorithm = match alg {
        AeadAlgorithm::Aes128Gcm => &aead::AES_128_GCM,
        AeadAlgorithm::Aes256Gcm => &aead::AES_256_GCM,
        AeadAlgorithm::ChaCha20Poly1305 => &aead::CHACHA20_POLY1305,
    };
    let key = aead::LessSafeKey::new(aead::UnboundKey::new(algorithm, key).ok()?);
    let nonce = aead::Nonce::assume_unique_for_key(nonce);
    let mut out = plaintext.to_vec();
    key.seal_in_place_append_tag(nonce, aead::Aad::from(aad), &mut out).ok()?;
    Some(out)
}

/// `ring::aead::LessSafeKey::open_in_place` under a key of the right length: the
/// result is a function of the arguments; a plaintext is 16 bytes shorter than
/// what was opened.
#[verifier::external_body]
pub(crate) fn ring_open(alg: AeadAlgorithm, key: &[u8], nonce: [u8; 12], aad: &[u8], ciphertext: &[u8]) -> (r: Option<
    Vec<u8>,
>)
    requires
        key@.len() == key_len(alg),
    ensures
        match opened(alg, key@, nonce@, aad@, ciphertext@) {
            Some(p) => r matches Some(v) && v@ == p && p.len() + 16 == ciphertext@.len(),
            None => r is None,
        },
{
    let algorithm = match alg {
        AeadAlgorithm::Aes128Gcm => &aead::AES_128_GCM,
        AeadAlgorithm::Aes256Gcm => &aead::AES_256_GCM,
        AeadAlgorithm::ChaCha20Poly1305 => &aead::CHACHA20_POLY1305,
    };
    let key = aead::LessSafeKey::new(aead::UnboundKey::new(algorithm, key).ok()?);
    let nonce = aead::Nonce::assume_unique_for_key(nonce);
    let mut buffer = ciphertext.to_vec();
    let plaintext = key.open_in_place(nonce, aead::Aad::from(aad), &mut buffer).ok()?;
    Some(plaintext.to_vec())
}

/// Why a key could not be made, or a record not sealed or opened.
#[derive(Debug, Clone, Copy, PartialEq, Eq, Structural)]
pub enum AeadError {
    BadKey,
    SealFailed,
    OpenFailed,
}

/// The nonce of record number `seq`: the IV with the number added without carry
/// into its last eight bytes.
pub open spec fn nonce_for(iv: Seq<u8>, seq: u64) -> Seq<u8> {
    Seq::new(
        12,
        |i: int| if i < 4 {
            iv[i]
        } else {
            iv[i] ^ be64(seq)[i - 4]
        },
    )
}

/// No two records under one IV share a nonce.
pub proof fn law_nonces_distinct(iv: Seq<u8>, a: u64, b: u64)
    requires
        iv.len() == 12,
        nonce_for(iv, a) == nonce_for(iv, b),
    ensures
        a == b,
{
    let x = be64(a);
    let y = be64(b);
    lemma_be64_round_trip(a, Seq::empty());
    lemma_be64_round_trip(b, Seq::empty());
    assert forall|i: int| 0 <= i < 8 implies x[i] == y[i] by {
        let v: u8 = iv[i + 4];
        let p: u8 = x[i];
        let q: u8 = y[i];
        assert(nonce_for(iv, a)[i + 4] == v ^ p);
        assert(nonce_for(iv, b)[i + 4] == v ^ q);
        assert(p == q) by (bit_vector)
            requires
                v ^ p == v ^ q,
        ;
    }
    assert(x + Seq::<u8>::empty() =~= y + Seq::<u8>::empty());
}

/// A record protection key: a cipher, its key and the IV that nonces start from.
pub struct AeadKey {
    alg: AeadAlgorithm,
    key: [u8; 32],
    iv: [u8; 12],
}

/// A cipher, its key and its IV.
pub struct AeadKeyView {
    pub alg: AeadAlgorithm,
    pub key: Seq<u8>,
    pub iv: Seq<u8>,
}

impl View for AeadKey {
    type V = AeadKeyView;

    closed spec fn view(&self) -> AeadKeyView {
        AeadKeyView {
            alg: self.alg,
            key: self.key@.take(key_len(self.alg) as int),
            iv: self.iv@,
        }
    }
}

impl Drop for AeadKey {
    fn drop(&mut self)
        opens_invariants none
        no_unwind
    {
        let key: &mut [u8] = &mut self.key;
        wipe(key);
        let iv: &mut [u8] = &mut self.iv;
        wipe(iv);
    }
}

impl AeadKey {
    /// A key of the cipher's length.
    pub fn new(alg: AeadAlgorithm, key: &[u8], iv: [u8; 12]) -> (r: Result<Self, AeadError>)
        ensures
            key@.len() == key_len(alg) ==> r is Ok && r->Ok_0@ == (AeadKeyView {
                alg,
                key: key@,
                iv: iv@,
            }),
            key@.len() != key_len(alg) ==> r is Err && r->Err_0 == AeadError::BadKey,
    {
        if key.len() != alg.key_len() {
            return Err(AeadError::BadKey);
        }
        let mut bytes: [u8; 32] = [0u8; 32];
        let mut i: usize = 0;
        while i < key.len()
            invariant
                i <= key.len() <= 32,
                bytes@.len() == 32,
                forall|j: int| 0 <= j < i ==> bytes@[j] == key@[j],
            decreases key.len() - i,
        {
            bytes[i] = key[i];
            i = i + 1;
        }
        assert(bytes@.take(key@.len() as int) =~= key@);
        Ok(Self { alg, key: bytes, iv })
    }

    fn nonce(&self, seq: u64) -> (r: [u8; 12])
        ensures
            r@ == nonce_for(self.iv@, seq),
    {
        let mut number: Vec<u8> = Vec::new();
        put_u64(&mut number, seq);
        assert(number@ =~= be64(seq));
        let mut r: [u8; 12] = self.iv;
        let mut i: usize = 4;
        while i < 12
            invariant
                4 <= i <= 12,
                number@ == be64(seq),
                number@.len() == 8,
                r@.len() == 12,
                self.iv@.len() == 12,
                forall|j: int| 0 <= j < i ==> r@[j] == nonce_for(self.iv@, seq)[j],
                forall|j: int| i <= j < 12 ==> r@[j] == self.iv@[j],
            decreases 12 - i,
        {
            r[i] = self.iv[i] ^ number[i - 4];
            i = i + 1;
        }
        assert(r@ =~= nonce_for(self.iv@, seq));
        r
    }

    /// Seals `plaintext` as record number `seq`, with the additional data `aad`.
    pub fn seal(&self, seq: u64, aad: &[u8], plaintext: &[u8]) -> (r: Result<Vec<u8>, AeadError>)
        requires
            aad@.len() <= 0xff_ffff,
            plaintext@.len() <= 0xff_ffff,
        ensures
            r is Ok,
            r->Ok_0@ == sealed(self@.alg, self@.key, nonce_for(self@.iv, seq), aad@, plaintext@),
            r->Ok_0@.len() == plaintext@.len() + TAG_LEN,
            opened(self@.alg, self@.key, nonce_for(self@.iv, seq), aad@, r->Ok_0@) == Some(plaintext@),
    {
        let key = slice_subrange(&self.key, 0, self.alg.key_len());
        assert(key@ =~= self@.key);
        match ring_seal(self.alg, key, self.nonce(seq), aad, plaintext) {
            Some(out) => Ok(out),
            None => Err(AeadError::SealFailed),
        }
    }

    /// Opens `ciphertext` as record number `seq`, with the additional data `aad`.
    pub fn open(&self, seq: u64, aad: &[u8], ciphertext: &[u8]) -> (r: Result<Vec<u8>, AeadError>)
        ensures
            match opened(self@.alg, self@.key, nonce_for(self@.iv, seq), aad@, ciphertext@) {
                Some(p) => r is Ok && r->Ok_0@ == p && p.len() + TAG_LEN == ciphertext@.len(),
                None => r is Err && r->Err_0 == AeadError::OpenFailed,
            },
    {
        let key = slice_subrange(&self.key, 0, self.alg.key_len());
        assert(key@ =~= self@.key);
        match ring_open(self.alg, key, self.nonce(seq), aad, ciphertext) {
            Some(out) => Ok(out),
            None => Err(AeadError::OpenFailed),
        }
    }
}

} // verus!
