//! HMAC-based key derivation and its TLS 1.3 labels.

use ring::hmac;
use vstd::prelude::*;
use vstd::utf8::encode_utf8;

use crate::codec::{be16, put_slice, put_u16, put_u8, put_vec_u8, vec8};
use crate::crypto::hash::{hash_len, hashable, wipe, Algorithm, Digest, Secret};

verus! {

#[derive(Debug, Clone, Copy, PartialEq, Eq, Structural)]
pub enum HkdfError {
    OutputTooLong,
    LabelTooLong,
    ContextTooLong,
}

/// The authentication code of `data` under `key`.
pub uninterp spec fn hmac_of(alg: Algorithm, key: Seq<u8>, data: Seq<u8>) -> Seq<u8>;

/// `ring::hmac::sign` under `ring::hmac::Key::new`: the code is a function of
/// the algorithm, the key and the data, and has the algorithm's length. Both
/// panic on more than 2^61 - 1 bytes, less a block; these are left out.
#[verifier::external_body]
pub(crate) fn ring_hmac(alg: Algorithm, key: &[u8], data: &[u8]) -> (r: Vec<u8>)
    requires
        hashable(key@),
        hashable(data@),
    ensures
        r@ == hmac_of(alg, key@, data@),
        r@.len() == hash_len(alg),
{
    let algorithm = match alg {
        Algorithm::Sha256 => hmac::HMAC_SHA256,
        Algorithm::Sha384 => hmac::HMAC_SHA384,
    };
    hmac::sign(&hmac::Key::new(algorithm, key), data).as_ref().to_vec()
}

/// The `i`th block of expanded output, counting from one; each block feeds the
/// next.
pub open spec fn hkdf_block(alg: Algorithm, prk: Seq<u8>, info: Seq<u8>, i: nat) -> Seq<u8>
    decreases i,
{
    if i == 0 {
        Seq::empty()
    } else {
        hmac_of(alg, prk, hkdf_block(alg, prk, info, (i - 1) as nat) + info + seq![i as u8])
    }
}

/// The first `n` blocks of expanded output, one behind another.
pub open spec fn hkdf_blocks(alg: Algorithm, prk: Seq<u8>, info: Seq<u8>, n: nat) -> Seq<u8>
    decreases n,
{
    if n == 0 {
        Seq::empty()
    } else {
        hkdf_blocks(alg, prk, info, (n - 1) as nat) + hkdf_block(alg, prk, info, n)
    }
}

/// How many blocks hold `len` bytes.
pub open spec fn blocks_for(alg: Algorithm, len: nat) -> nat {
    ((len + hash_len(alg) - 1) / hash_len(alg) as int) as nat
}

/// `len` bytes expanded from `prk` for the purpose `info`; a block counter has
/// one byte, so there are at most 255 blocks.
pub open spec fn hkdf_expand(alg: Algorithm, prk: Seq<u8>, info: Seq<u8>, len: nat) -> Result<
    Seq<u8>,
    HkdfError,
> {
    if blocks_for(alg, len) > 255 {
        Err(HkdfError::OutputTooLong)
    } else {
        Ok(hkdf_blocks(alg, prk, info, blocks_for(alg, len)).take(len as int))
    }
}

/// "tls13 " in front of a label.
pub open spec fn prefixed_label(label: Seq<u8>) -> Seq<u8> {
    seq![0x74u8, 0x6c, 0x73, 0x31, 0x33, 0x20] + label
}

/// The purpose of an expansion: its length, its label and its context.
pub open spec fn hkdf_label(label: Seq<u8>, context: Seq<u8>, len: nat) -> Result<Seq<u8>, HkdfError> {
    if len > 0xffff {
        Err(HkdfError::OutputTooLong)
    } else if 6 + label.len() > 0xff {
        Err(HkdfError::LabelTooLong)
    } else if context.len() > 0xff {
        Err(HkdfError::ContextTooLong)
    } else {
        Ok(be16(len as u16) + vec8(prefixed_label(label)) + vec8(context))
    }
}

/// `len` bytes expanded from `prk` under a label and a context.
pub open spec fn hkdf_expand_label(
    alg: Algorithm,
    prk: Seq<u8>,
    label: Seq<u8>,
    context: Seq<u8>,
    len: nat,
) -> Result<Seq<u8>, HkdfError> {
    match hkdf_label(label, context, len) {
        Ok(info) => hkdf_expand(alg, prk, info, len),
        Err(e) => Err(e),
    }
}

/// The secret derived from `prk` under a label and a transcript hash.
pub open spec fn derived_secret(alg: Algorithm, prk: Seq<u8>, label: Seq<u8>, context: Seq<u8>) -> Result<
    Seq<u8>,
    HkdfError,
> {
    hkdf_expand_label(alg, prk, label, context, hash_len(alg))
}

/// The bytes of a label.
pub open spec fn label_bytes(label: &str) -> Seq<u8> {
    encode_utf8(label@)
}

/// Key derivation under one hash.
#[derive(Debug, Clone, Copy, PartialEq, Eq, Structural)]
pub struct Hkdf {
    pub alg: Algorithm,
}

impl Hkdf {
    /// Key derivation under `alg`.
    pub fn new(alg: Algorithm) -> (r: Self)
        ensures
            r.alg == alg,
    {
        Self { alg }
    }

    /// A pseudorandom key from a salt and input keying material.
    pub fn extract(self, salt: &[u8], ikm: &[u8]) -> (r: Secret)
        requires
            hashable(salt@),
            hashable(ikm@),
        ensures
            r@ == hmac_of(self.alg, salt@, ikm@),
            r@.len() == hash_len(self.alg),
    {
        let tag = ring_hmac(self.alg, salt, ikm);
        Secret::from_slice(tag.as_slice())
    }

    /// Fills `out` from `prk` for the purpose `info`.
    pub fn expand(self, prk: &[u8], info: &[u8], out: &mut [u8]) -> (r: Result<(), HkdfError>)
        requires
            hashable(prk@),
            info@.len() <= 0x0800_0000_0000_0000,
        ensures
            match hkdf_expand(self.alg, prk@, info@, old(out)@.len()) {
                Ok(okm) => r is Ok && final(out)@ == okm,
                Err(e) => r == Err::<(), HkdfError>(e) && final(out)@ == old(out)@,
            },
            final(out)@.len() == old(out)@.len(),
    {
        let block_len: usize = self.alg.output_len();
        let total: usize = out.len();
        let block_count: usize = if total % block_len == 0 {
            total / block_len
        } else {
            total / block_len + 1
        };
        assert(block_count == blocks_for(self.alg, total as nat)) by {
            if self.alg == Algorithm::Sha256 {
                assert(block_len == 32);
            } else {
                assert(block_len == 48);
            }
        }
        if block_count > 255 {
            return Err(HkdfError::OutputTooLong);
        }
        assert(block_count * block_len >= total && block_count <= 255) by {
            if self.alg == Algorithm::Sha256 {
                assert(block_len == 32);
            } else {
                assert(block_len == 48);
            }
        }
        let mut previous: Vec<u8> = Vec::new();
        let mut okm: Vec<u8> = Vec::new();
        let mut counter: usize = 0;
        while counter < block_count
            invariant
                counter <= block_count <= 255,
                block_len == hash_len(self.alg),
                hashable(prk@),
                info@.len() <= 0x0800_0000_0000_0000,
                previous@ == hkdf_block(self.alg, prk@, info@, counter as nat),
                previous@.len() <= 48,
                okm@ == hkdf_blocks(self.alg, prk@, info@, counter as nat),
                okm@.len() == counter * block_len,
            decreases block_count - counter,
        {
            counter = counter + 1;
            let mut input: Vec<u8> = Vec::new();
            put_slice(&mut input, previous.as_slice());
            put_slice(&mut input, info);
            put_u8(&mut input, counter as u8);
            assert(input@ =~= previous@ + info@ + seq![counter as u8]);
            previous = ring_hmac(self.alg, prk, input.as_slice());
            put_slice(&mut okm, previous.as_slice());
            assert(okm@.len() == counter * block_len) by (nonlinear_arith)
                requires
                    okm@.len() == (counter - 1) * block_len + block_len,
            ;
        }
        let mut i: usize = 0;
        while i < total
            invariant
                i <= total,
                out@.len() == total,
                total <= okm@.len(),
                forall|j: int| 0 <= j < i ==> out@[j] == okm@[j],
            decreases total - i,
        {
            out[i] = okm[i];
            i = i + 1;
        }
        assert(out@ =~= okm@.take(total as int));
        wipe(previous.as_mut_slice());
        wipe(okm.as_mut_slice());
        Ok(())
    }

    /// Fills `out` from `prk` under a label and a context.
    pub fn expand_label(self, prk: &[u8], label: &str, context: &[u8], out: &mut [u8]) -> (r: Result<
        (),
        HkdfError,
    >)
        requires
            hashable(prk@),
        ensures
            match hkdf_expand_label(self.alg, prk@, label_bytes(label), context@, old(out)@.len()) {
                Ok(okm) => r is Ok && final(out)@ == okm,
                Err(e) => r == Err::<(), HkdfError>(e) && final(out)@ == old(out)@,
            },
            final(out)@.len() == old(out)@.len(),
    {
        let info = Self::hkdf_label(label, context, out.len())?;
        self.expand(prk, info.as_slice(), out)
    }

    /// A secret derived from `prk` under a label and a transcript hash.
    pub fn derive_secret(self, prk: &[u8], label: &str, transcript_hash: &[u8]) -> (r: Result<
        Secret,
        HkdfError,
    >)
        requires
            hashable(prk@),
        ensures
            match derived_secret(self.alg, prk@, label_bytes(label), transcript_hash@) {
                Ok(s) => r is Ok && r->Ok_0@ == s && s.len() == hash_len(self.alg),
                Err(e) => r is Err && r->Err_0 == e,
            },
    {
        let mut out: Vec<u8> = zeros(self.alg.output_len());
        let done = self.expand_label(prk, label, transcript_hash, out.as_mut_slice());
        match done {
            Ok(()) => {
                let secret = Secret::from_slice(out.as_slice());
                wipe(out.as_mut_slice());
                Ok(secret)
            },
            Err(e) => Err(e),
        }
    }

    /// The traffic secret that follows `prev`.
    pub fn traffic_update(self, prev: &Digest) -> (r: Result<Secret, HkdfError>)
        ensures
            r is Ok,
            r->Ok_0@ == next_traffic_secret(self.alg, prev@),
            r->Ok_0@.len() == hash_len(self.alg),
    {
        let none: [u8; 0] = [];
        assert(none@ =~= Seq::<u8>::empty());
        proof {
            lemma_label_lengths();
            lemma_derives(self.alg, prev@, label_bytes("traffic upd"), Seq::empty());
        }
        self.derive_secret(prev.as_slice(), "traffic upd", &none)
    }

    fn hkdf_label(label: &str, context: &[u8], out_len: usize) -> (r: Result<Vec<u8>, HkdfError>)
        ensures
            match hkdf_label(label_bytes(label), context@, out_len as nat) {
                Ok(info) => r is Ok && r->Ok_0@ == info && info.len() <= 520,
                Err(e) => r is Err && r->Err_0 == e,
            },
    {
        if out_len > 0xffff {
            return Err(HkdfError::OutputTooLong);
        }
        let label_utf8 = label.as_bytes();
        if label_utf8.len() > 0xff - 6 {
            return Err(HkdfError::LabelTooLong);
        }
        if context.len() > 0xff {
            return Err(HkdfError::ContextTooLong);
        }
        let mut full: Vec<u8> = vec![0x74, 0x6c, 0x73, 0x31, 0x33, 0x20];
        put_slice(&mut full, label_utf8);
        assert(full@ =~= prefixed_label(label_bytes(label)));
        let mut info: Vec<u8> = Vec::new();
        put_u16(&mut info, out_len as u16);
        put_vec_u8(&mut info, full.as_slice());
        put_vec_u8(&mut info, context);
        assert(info@ =~= be16(out_len as u16) + vec8(full@) + vec8(context@));
        Ok(info)
    }
}

/// `len` zero bytes.
pub open spec fn zero_bytes(len: nat) -> Seq<u8> {
    Seq::new(len, |i: int| 0u8)
}

/// `len` zero bytes.
pub fn zeros(len: usize) -> (r: Vec<u8>)
    ensures
        r@ == zero_bytes(len as nat),
{
    let mut v: Vec<u8> = Vec::new();
    let mut i: usize = 0;
    while i < len
        invariant
            i <= len,
            v@ == zero_bytes(i as nat),
        decreases len - i,
    {
        v.push(0);
        i = i + 1;
        assert(v@ =~= zero_bytes(i as nat));
    }
    v
}

/// The traffic secret that follows `secret`.
pub open spec fn next_traffic_secret(alg: Algorithm, secret: Seq<u8>) -> Seq<u8> {
    derived_secret(alg, secret, label_bytes("traffic upd"), Seq::empty())->Ok_0
}

/// The labels of the key schedule are short enough to use.
pub proof fn lemma_label_lengths()
    ensures
        label_bytes("traffic upd").len() <= 249,
        label_bytes("derived").len() <= 249,
        label_bytes("c hs traffic").len() <= 249,
        label_bytes("s hs traffic").len() <= 249,
        label_bytes("c ap traffic").len() <= 249,
        label_bytes("s ap traffic").len() <= 249,
        label_bytes("c e traffic").len() <= 249,
        label_bytes("res master").len() <= 249,
        label_bytes("exp master").len() <= 249,
        label_bytes("exporter").len() <= 249,
        label_bytes("resumption").len() <= 249,
        label_bytes("res binder").len() <= 249,
        label_bytes("finished").len() <= 249,
        label_bytes("key").len() <= 249,
        label_bytes("iv").len() <= 249,
{
    reveal_strlit("traffic upd");
    reveal_strlit("derived");
    reveal_strlit("c hs traffic");
    reveal_strlit("s hs traffic");
    reveal_strlit("c ap traffic");
    reveal_strlit("s ap traffic");
    reveal_strlit("c e traffic");
    reveal_strlit("res master");
    reveal_strlit("exp master");
    reveal_strlit("exporter");
    reveal_strlit("resumption");
    reveal_strlit("res binder");
    reveal_strlit("finished");
    reveal_strlit("key");
    reveal_strlit("iv");
    broadcast use vstd::utf8::is_ascii_chars_encode_utf8;

    assert(vstd::utf8::is_ascii_chars("traffic upd"@));
    assert(vstd::utf8::is_ascii_chars("derived"@));
    assert(vstd::utf8::is_ascii_chars("c hs traffic"@));
    assert(vstd::utf8::is_ascii_chars("s hs traffic"@));
    assert(vstd::utf8::is_ascii_chars("c ap traffic"@));
    assert(vstd::utf8::is_ascii_chars("s ap traffic"@));
    assert(vstd::utf8::is_ascii_chars("c e traffic"@));
    assert(vstd::utf8::is_ascii_chars("res master"@));
    assert(vstd::utf8::is_ascii_chars("exp master"@));
    assert(vstd::utf8::is_ascii_chars("exporter"@));
    assert(vstd::utf8::is_ascii_chars("resumption"@));
    assert(vstd::utf8::is_ascii_chars("res binder"@));
    assert(vstd::utf8::is_ascii_chars("finished"@));
    assert(vstd::utf8::is_ascii_chars("key"@));
    assert(vstd::utf8::is_ascii_chars("iv"@));
}

/// A short label and a context of at most 255 bytes always give a secret.
pub proof fn lemma_derives(alg: Algorithm, prk: Seq<u8>, label: Seq<u8>, context: Seq<u8>)
    requires
        label.len() <= 249,
        context.len() <= 255,
    ensures
        derived_secret(alg, prk, label, context) is Ok,
{
}

} // verus!
