//! The key that tickets are sealed under.

use vstd::prelude::*;
use vstd::slice::slice_subrange;

use crate::codec::{be16, be32, be64, from_be16, from_be32, from_be64, put_u16, put_u32, put_u64, to_array};
use crate::crypto::aead::{opened, ring_open, ring_seal, sealed, AeadAlgorithm};
use crate::crypto::hash::{wipe, Algorithm};
use crate::crypto::kdf::{hkdf_expand_label, label_bytes, Hkdf};
use crate::crypto::material::ResumptionPsk;
use crate::crypto::rng::random_array;
use crate::crypto::ticket::buffer::{extend_plain, new_plain, plain_bytes, plain_slice, protocol_from};
use crate::crypto::ticket::claims::{
    claims_bytes, claims_of, law_claims_round_trip, suite_of, tls_claims, ClaimsView,
};
use crate::crypto::ticket::{
    Claims, Context, Decrypted, Encrypted, Error, LEGACY_FIXED_PLAINTEXT_LEN, MAX_ALPN_LEN, MAX_LEN, NONCE_LEN,
    PSK_LEN, TAG_LEN,
};
use crate::record::{suite_id, CipherSuite};
use crate::transport::Mode;

verus! {

/// The sealing key that comes from a ticket secret.
pub open spec fn ticket_key(secret: Seq<u8>) -> Seq<u8> {
    hkdf_expand_label(Algorithm::Sha256, secret, label_bytes("ticket"), Seq::empty(), 16)->Ok_0
}

/// A ticket: a nonce, and the claims sealed under it.
pub open spec fn ticket_of(key: Seq<u8>, nonce: Seq<u8>, plaintext: Seq<u8>) -> Seq<u8> {
    nonce + sealed(AeadAlgorithm::Aes128Gcm, key, nonce, Seq::empty(), plaintext)
}

/// Whether a ticket was sealed under a key and some nonce.
pub open spec fn is_ticket_of(key: Seq<u8>, ticket: Seq<u8>, plaintext: Seq<u8>) -> bool {
    exists|nonce: Seq<u8>| nonce.len() == NONCE_LEN && ticket == #[trigger] ticket_of(key, nonce, plaintext)
}

/// What a ticket says, where it opens under a key.
pub open spec fn ticket_claims(key: Seq<u8>, ticket: Seq<u8>) -> Result<ClaimsView, Error> {
    if ticket.len() < NONCE_LEN + LEGACY_FIXED_PLAINTEXT_LEN + TAG_LEN || ticket.len() > MAX_LEN {
        Err(Error::BadFormat)
    } else {
        match opened(AeadAlgorithm::Aes128Gcm, key, ticket.take(12), Seq::empty(), ticket.skip(12)) {
            None => Err(Error::BadAuth),
            Some(plaintext) => claims_of(plaintext),
        }
    }
}

/// The sealing key that comes from a ticket secret has the cipher's length.
pub proof fn lemma_ticket_key(secret: Seq<u8>)
    ensures
        hkdf_expand_label(Algorithm::Sha256, secret, label_bytes("ticket"), Seq::empty(), 16) is Ok,
{
    reveal_strlit("ticket");
    broadcast use vstd::utf8::is_ascii_chars_encode_utf8;

    assert(vstd::utf8::is_ascii_chars("ticket"@));
    assert(label_bytes("ticket").len() == 6);
}

/// The key that tickets are sealed under.
pub struct Secret {
    aead_key: [u8; 16],
}

impl View for Secret {
    type V = Seq<u8>;

    closed spec fn view(&self) -> Seq<u8> {
        self.aead_key@
    }
}

impl Drop for Secret {
    fn drop(&mut self)
        opens_invariants none
        no_unwind
    {
        let key: &mut [u8] = &mut self.aead_key;
        wipe(key);
    }
}

impl Clone for Secret {
    fn clone(&self) -> (r: Self)
        ensures
            r@ == self@,
    {
        Self { aead_key: self.aead_key }
    }
}

impl Secret {
    /// Derives the sealing key from a secret.
    pub fn new(secret: [u8; 32]) -> (r: Result<Self, Error>)
        ensures
            r is Ok,
            r->Ok_0@ == ticket_key(secret@),
    {
        let mut given = secret;
        let mut aead_key: [u8; 16] = [0u8; 16];
        let none: [u8; 0] = [];
        assert(none@ =~= Seq::<u8>::empty());
        proof {
            lemma_ticket_key(secret@);
        }
        let out: &mut [u8] = &mut aead_key;
        let derived = Hkdf::new(Algorithm::Sha256).expand_label(&given, "ticket", &none, out);
        let rest: &mut [u8] = &mut given;
        wipe(rest);
        match derived {
            Ok(()) => Ok(Self { aead_key }),
            Err(_) => Err(Error::BadKey),
        }
    }

    /// Seals claims of a TLS server without early data.
    pub fn encrypt(
        &self,
        psk: &[u8; PSK_LEN],
        age_add: u32,
        issued_at_ms: u64,
        suite: CipherSuite,
        alpn: &[u8],
    ) -> (r: Result<Encrypted, Error>)
        ensures
            alpn@.len() > MAX_ALPN_LEN ==> r is Err && r->Err_0 == Error::BadFormat,
            alpn@.len() <= MAX_ALPN_LEN ==> r is Ok || r->Err_0 == Error::BadKey,
            r is Ok ==> {
                &&& ticket_claims(self@, r->Ok_0@) == Ok::<ClaimsView, Error>(
                    tls_claims(psk@, age_add, issued_at_ms, suite, alpn@),
                )
                &&& r->Ok_0@.len() == 130 + alpn@.len()
            },
    {
        let key = ResumptionPsk::new(*psk);
        let none: [u8; 0] = [];
        assert(none@ =~= Seq::<u8>::empty());
        let context = Context::new(Mode::Tls, None, &none);
        let claims = Claims { psk: &key, age_add, issued_at_ms, suite, alpn, context };
        assert(claims@ == tls_claims(psk@, age_add, issued_at_ms, suite, alpn@));
        self.encrypt_claims(claims)
    }

    /// Seals claims under a nonce that the system's randomness gives.
    pub fn encrypt_claims(&self, claims: Claims<'_>) -> (r: Result<Encrypted, Error>)
        ensures
            claims@.alpn.len() > MAX_ALPN_LEN ==> r is Err && r->Err_0 == Error::BadFormat,
            match claims_bytes(claims@) {
                Ok(_) => r is Ok || r->Err_0 == Error::BadKey,
                Err(e) => r is Err && (r->Err_0 == e || r->Err_0 == Error::BadKey),
            },
            r is Ok ==> {
                &&& ticket_claims(self@, r->Ok_0@) == Ok::<ClaimsView, Error>(claims@)
                &&& r->Ok_0@.len() == 130 + claims@.alpn.len()
                &&& is_ticket_of(self@, r->Ok_0@, claims_bytes(claims@)->Ok_0)
            },
    {
        if claims.alpn.len() > MAX_ALPN_LEN {
            return Err(Error::BadFormat);
        }
        match random_array() {
            Some(nonce) => self.seal_claims(claims, nonce),
            None => Err(Error::BadKey),
        }
    }

    /// Seals claims under a nonce. What is sealed opens to the same claims.
    pub fn seal_claims(&self, claims: Claims<'_>, nonce: [u8; NONCE_LEN]) -> (r: Result<Encrypted, Error>)
        ensures
            match claims_bytes(claims@) {
                Ok(plaintext) => {
                    &&& r is Ok
                    &&& r->Ok_0@ == ticket_of(self@, nonce@, plaintext)
                    &&& r->Ok_0@.len() == 130 + claims@.alpn.len()
                    &&& ticket_claims(self@, r->Ok_0@) == Ok::<ClaimsView, Error>(claims@)
                },
                Err(e) => r is Err && r->Err_0 == e,
            },
    {
        if claims.alpn.len() > MAX_ALPN_LEN {
            return Err(Error::BadFormat);
        }
        let mut buf = new_plain();
        let mut numbers: Vec<u8> = Vec::new();
        put_u32(&mut numbers, claims.age_add);
        put_u64(&mut numbers, claims.issued_at_ms);
        put_u16(&mut numbers, claims.suite.to_u16());
        let ghost c = claims@;
        assert(numbers@ =~= be32(c.age_add) + be64(c.issued_at_ms) + be16(suite_id(c.suite)));
        extend_plain(&mut buf, claims.psk.as_slice());
        extend_plain(&mut buf, numbers.as_slice());
        assert(plain_bytes(buf) =~= c.psk + numbers@);
        claims.context.encode(&mut buf)?;
        let count: [u8; 1] = [claims.alpn.len() as u8];
        extend_plain(&mut buf, &count);
        extend_plain(&mut buf, claims.alpn);
        let plaintext = plain_slice(&buf);
        assert(plaintext@ =~= claims_bytes(c)->Ok_0);
        let none: [u8; 0] = [];
        assert(none@ =~= Seq::<u8>::empty());
        let body = match ring_seal(AeadAlgorithm::Aes128Gcm, &self.aead_key, nonce, &none, plaintext) {
            Some(b) => b,
            None => return Err(Error::BadAuth),
        };
        match Encrypted::of(&nonce, body.as_slice()) {
            Some(e) => {
                proof {
                    claims.context.lemma_lengths();
                    law_claims_round_trip(c);
                    let t = e@;
                    assert(t.take(12) =~= nonce@);
                    assert(t.skip(12) =~= body@);
                }
                Ok(e)
            },
            None => Err(Error::BadFormat),
        }
    }

    /// Opens a ticket.
    pub fn decrypt(&self, encrypted: &[u8]) -> (r: Result<Decrypted, Error>)
        ensures
            match ticket_claims(self@, encrypted@) {
                Ok(c) => r is Ok && r->Ok_0@ == c,
                Err(e) => r is Err && r->Err_0 == e,
            },
    {
        if encrypted.len() < NONCE_LEN + LEGACY_FIXED_PLAINTEXT_LEN + TAG_LEN || encrypted.len() > MAX_LEN {
            return Err(Error::BadFormat);
        }
        let head = slice_subrange(encrypted, 0, NONCE_LEN);
        let nonce: [u8; NONCE_LEN] = to_array(head);
        let body = slice_subrange(encrypted, NONCE_LEN, encrypted.len());
        assert(head@ =~= encrypted@.take(12));
        assert(body@ =~= encrypted@.skip(12));
        let none: [u8; 0] = [];
        assert(none@ =~= Seq::<u8>::empty());
        let mut plain = match ring_open(AeadAlgorithm::Aes128Gcm, &self.aead_key, nonce, &none, body) {
            Some(p) => p,
            None => return Err(Error::BadAuth),
        };
        let claims = Self::parse_plaintext(plain.as_slice());
        wipe(plain.as_mut_slice());
        claims
    }

    /// Reads the claims in a plaintext.
    pub fn parse_plaintext(plain: &[u8]) -> (r: Result<Decrypted, Error>)
        ensures
            match claims_of(plain@) {
                Ok(c) => r is Ok && r->Ok_0@ == c,
                Err(e) => r is Err && r->Err_0 == e,
            },
    {
        if plain.len() < LEGACY_FIXED_PLAINTEXT_LEN {
            return Err(Error::BadFormat);
        }
        let n: usize = Context::encoded_len(plain[46])?;
        let alpn_len_off: usize = 46 + n;
        let fixed: usize = alpn_len_off + 1;
        if plain.len() < fixed {
            return Err(Error::BadFormat);
        }
        let alpn_len: usize = plain[alpn_len_off] as usize;
        if plain.len() != fixed + alpn_len {
            return Err(Error::BadFormat);
        }
        let context = Context::decode(slice_subrange(plain, 46, alpn_len_off))?;
        let age_add: u32 = read_be32(plain, 32);
        let issued_at_ms: u64 = read_be32(plain, 36) as u64 * 0x1_0000_0000 + read_be32(plain, 40) as u64;
        assert(plain@.skip(36).skip(4) =~= plain@.skip(40));
        assert(issued_at_ms == from_be64(plain@.skip(36)));
        let id: u16 = plain[44] as u16 * 256 + plain[45] as u16;
        assert(id == from_be16(plain@.skip(44)));
        let suite = match CipherSuite::from_u16(id) {
            Some(s) => s,
            None => {
                proof {
                    if let Some(s) = suite_of(id) {
                        assert(suite_id(s) == id);
                    }
                }
                return Err(Error::BadFormat);
            },
        };
        assert(suite_of(id) == Some(suite));
        let psk_bytes = slice_subrange(plain, 0, PSK_LEN);
        assert(psk_bytes@ =~= plain@.take(32));
        let alpn_bytes = slice_subrange(plain, fixed, plain.len());
        assert(alpn_bytes@ =~= plain@.skip(fixed as int));
        match protocol_from(alpn_bytes) {
            Some(alpn) => Ok(
                Decrypted {
                    psk: ResumptionPsk::new(to_array(psk_bytes)),
                    age_add,
                    issued_at_ms,
                    suite,
                    alpn,
                    context,
                },
            ),
            None => Err(Error::BadFormat),
        }
    }
}

fn read_be32(s: &[u8], at: usize) -> (r: u32)
    requires
        at + 4 <= s@.len(),
    ensures
        r == from_be32(s@.skip(at as int)),
{
    s[at] as u32 * 16777216 + s[at + 1] as u32 * 65536 + s[at + 2] as u32 * 256 + s[at + 3] as u32
}

} // verus!
