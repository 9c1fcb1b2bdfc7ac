//! Session tickets of a stateless server: the resumption key and what it was
//! agreed for, sealed under a key that only the server has.

use arrayvec::ArrayVec;
use vstd::prelude::*;
use vstd::slice::slice_subrange;
use vstd::std_specs::cmp::PartialEqSpecImpl;

use crate::codec::{
    be16, be32, be64, bytes_eq, from_be16, from_be32, from_be64, lemma_be16, lemma_be32, lemma_be64_round_trip,
    put_u16, put_u32, put_u64, to_array, vec8,
};
use crate::crypto::aead::{opened, ring_open, ring_seal, sealed, AeadAlgorithm};
use crate::crypto::hash::{wipe, Algorithm};
use crate::crypto::kdf::Hkdf;
use crate::crypto::rng::random_array;
use crate::crypto::ticket::rotator::{is_due, Schedule};
use crate::crypto::ticket::secret::{lemma_ticket_key, ticket_key};

verus! {

pub const TICKET_NONCE_LEN: usize = 12;

pub const TICKET_TAG_LEN: usize = 16;

pub const PSK_LEN: usize = 32;

pub const MAX_ALPN_LEN: usize = 255;

/// Key, age mask, time of issue, suite and the length of the protocol.
pub const FIXED_PLAINTEXT_LEN: usize = 47;

pub const MAX_PLAINTEXT_LEN: usize = 302;

/// How long a ticket may be.
pub const MAX_TICKET_LEN: usize = 330;

/// Why a ticket was not made or not opened.
#[derive(Debug, Clone, Copy, PartialEq, Eq, Structural)]
pub enum TicketError {
    BadFormat,
    BadAuth,
    BadKey,
}

/// What a ticket says.
#[verifier::ext_equal]
pub struct TicketView {
    pub psk: Seq<u8>,
    pub age_add: u32,
    pub issued_at_ms: u64,
    pub suite: u16,
    pub alpn: Seq<u8>,
}

/// The bytes of what a ticket says.
pub open spec fn plaintext_of(t: TicketView) -> Seq<u8> {
    t.psk + be32(t.age_add) + be64(t.issued_at_ms) + be16(t.suite) + vec8(t.alpn)
}

/// What the bytes of a ticket say.
pub open spec fn content_of(s: Seq<u8>) -> Result<TicketView, TicketError> {
    if s.len() < FIXED_PLAINTEXT_LEN || s.len() != FIXED_PLAINTEXT_LEN + s[46] {
        Err(TicketError::BadFormat)
    } else {
        Ok(
            TicketView {
                psk: s.take(32),
                age_add: from_be32(s.skip(32)),
                issued_at_ms: from_be64(s.skip(36)),
                suite: from_be16(s.skip(44)),
                alpn: s.skip(47),
            },
        )
    }
}

/// A ticket: a nonce, and its content sealed under it.
pub open spec fn sealed_ticket(key: Seq<u8>, nonce: Seq<u8>, t: TicketView) -> Seq<u8> {
    nonce + sealed(AeadAlgorithm::Aes128Gcm, key, nonce, Seq::empty(), plaintext_of(t))
}

/// Whether a ticket was sealed under a key and some nonce.
pub open spec fn is_sealed_ticket(key: Seq<u8>, ticket: Seq<u8>, t: TicketView) -> bool {
    exists|nonce: Seq<u8>| nonce.len() == TICKET_NONCE_LEN && ticket == #[trigger] sealed_ticket(key, nonce, t)
}

/// What a ticket says, where it opens under a key.
pub open spec fn opened_ticket(key: Seq<u8>, ticket: Seq<u8>) -> Result<TicketView, TicketError> {
    if ticket.len() < TICKET_NONCE_LEN + FIXED_PLAINTEXT_LEN + TICKET_TAG_LEN || ticket.len()
        > MAX_TICKET_LEN {
        Err(TicketError::BadFormat)
    } else {
        match opened(AeadAlgorithm::Aes128Gcm, key, ticket.take(12), Seq::empty(), ticket.skip(12)) {
            None => Err(TicketError::BadAuth),
            Some(s) => content_of(s),
        }
    }
}

/// What is written into a ticket reads back as it was.
pub proof fn law_content_round_trip(t: TicketView)
    requires
        t.psk.len() == PSK_LEN,
        t.alpn.len() <= MAX_ALPN_LEN,
    ensures
        content_of(plaintext_of(t)) == Ok::<TicketView, TicketError>(t),
{
    let s = plaintext_of(t);
    let a = vec8(t.alpn);
    let after_age = be64(t.issued_at_ms) + (be16(t.suite) + a);
    assert(s.skip(32) =~= be32(t.age_add) + after_age);
    assert(s.skip(36) =~= after_age);
    assert(s.skip(44) =~= be16(t.suite) + a);
    assert(s.take(32) =~= t.psk);
    lemma_be32(t.age_add, after_age);
    lemma_be64_round_trip(t.issued_at_ms, be16(t.suite) + a);
    lemma_be16(t.suite, a);
    assert(s[46] == a[0]);
    assert(s.skip(47) =~= t.alpn);
    assert(content_of(s)->Ok_0 =~= t);
}

/// The bytes of a sealed ticket.
pub uninterp spec fn sealed_bytes(v: ArrayVec<u8, 330>) -> Seq<u8>;

/// `ArrayVec::new`: an empty list.
#[verifier::external_body]
fn new_sealed() -> (r: ArrayVec<u8, 330>)
    ensures
        sealed_bytes(r) == Seq::<u8>::empty(),
{
    ArrayVec::new()
}

/// `ArrayVec::try_extend_from_slice`: appends all of `s` where the list has room
/// for it, and otherwise leaves it as it is.
#[verifier::external_body]
fn extend_sealed(v: &mut ArrayVec<u8, 330>, s: &[u8]) -> (r: bool)
    ensures
        r == (sealed_bytes(*old(v)).len() + s@.len() <= 330),
        r ==> sealed_bytes(*final(v)) == sealed_bytes(*old(v)) + s@,
        !r ==> *final(v) == *old(v),
{
    v.try_extend_from_slice(s).is_ok()
}

/// `ArrayVec::as_slice`: the bytes in order.
#[verifier::external_body]
fn sealed_slice(v: &ArrayVec<u8, 330>) -> (r: &[u8])
    ensures
        r@ == sealed_bytes(*v),
        r@.len() <= 330,
{
    v.as_slice()
}

/// The bytes of an application protocol that was read out of a ticket.
pub uninterp spec fn alpn_bytes(v: ArrayVec<u8, 255>) -> Seq<u8>;

/// `ArrayVec::try_from` on a slice: a list of the bytes, where they are no more
/// than its capacity.
#[verifier::external_body]
fn alpn_from(s: &[u8]) -> (r: Option<ArrayVec<u8, 255>>)
    ensures
        s@.len() <= 255 ==> r is Some && alpn_bytes(r->0) == s@,
        s@.len() > 255 ==> r is None,
{
    ArrayVec::try_from(s).ok()
}

/// `ArrayVec::as_slice`: the bytes in order.
#[verifier::external_body]
fn alpn_slice(v: &ArrayVec<u8, 255>) -> (r: &[u8])
    ensures
        r@ == alpn_bytes(*v),
{
    v.as_slice()
}

/// An authenticated, opaque session ticket of a bounded size.
pub struct EncryptedTicket {
    bytes: ArrayVec<u8, 330>,
}

impl View for EncryptedTicket {
    type V = Seq<u8>;

    closed spec fn view(&self) -> Seq<u8> {
        sealed_bytes(self.bytes)
    }
}

impl PartialEq for EncryptedTicket {
    fn eq(&self, other: &Self) -> (r: bool) {
        bytes_eq(self.as_slice(), other.as_slice())
    }
}

impl PartialEqSpecImpl for EncryptedTicket {
    open spec fn obeys_eq_spec() -> bool {
        true
    }

    open spec fn eq_spec(&self, other: &Self) -> bool {
        self@ == other@
    }
}

impl Eq for EncryptedTicket {

}

impl Clone for EncryptedTicket {
    fn clone(&self) -> (r: Self)
        ensures
            r@ == self@,
    {
        let mut bytes = new_sealed();
        let copied = extend_sealed(&mut bytes, self.as_slice());
        assert(Seq::<u8>::empty() + self@ =~= self@);
        Self { bytes }
    }
}

impl EncryptedTicket {
    /// The ticket's bytes.
    pub fn as_slice(&self) -> (r: &[u8])
        ensures
            r@ == self@,
            r@.len() <= MAX_TICKET_LEN,
    {
        sealed_slice(&self.bytes)
    }

    /// How long the ticket is.
    pub fn len(&self) -> (r: usize)
        ensures
            r == self@.len(),
    {
        self.as_slice().len()
    }

    /// Whether the ticket has no bytes.
    pub fn is_empty(&self) -> (r: bool)
        ensures
            r == (self@.len() == 0),
    {
        self.as_slice().len() == 0
    }
}

/// What was read out of a ticket.
pub struct DecryptedTicket {
    pub psk: [u8; PSK_LEN],
    pub age_add: u32,
    pub issued_at_ms: u64,
    pub suite: u16,
    pub alpn: ArrayVec<u8, 255>,
}

impl View for DecryptedTicket {
    type V = TicketView;

    open spec fn view(&self) -> TicketView {
        TicketView {
            psk: self.psk@,
            age_add: self.age_add,
            issued_at_ms: self.issued_at_ms,
            suite: self.suite,
            alpn: alpn_bytes(self.alpn),
        }
    }
}

impl PartialEq for DecryptedTicket {
    fn eq(&self, other: &Self) -> (r: bool) {
        self.age_add == other.age_add && self.issued_at_ms == other.issued_at_ms && self.suite == other.suite
            && bytes_eq(&self.psk, &other.psk) && bytes_eq(self.alpn(), other.alpn())
    }
}

impl PartialEqSpecImpl for DecryptedTicket {
    open spec fn obeys_eq_spec() -> bool {
        true
    }

    open spec fn eq_spec(&self, other: &Self) -> bool {
        self@ == other@
    }
}

impl Eq for DecryptedTicket {

}

impl Drop for DecryptedTicket {
    fn drop(&mut self)
        opens_invariants none
        no_unwind
    {
        let psk: &mut [u8] = &mut self.psk;
        wipe(psk);
    }
}

impl DecryptedTicket {
    /// The application protocol.
    pub fn alpn(&self) -> (r: &[u8])
        ensures
            r@ == self@.alpn,
    {
        alpn_slice(&self.alpn)
    }
}

/// A secret that a sealing key comes from.
pub struct TicketSecret {
    secret: [u8; 32],
}

impl View for TicketSecret {
    type V = Seq<u8>;

    closed spec fn view(&self) -> Seq<u8> {
        self.secret@
    }
}

impl Drop for TicketSecret {
    fn drop(&mut self)
        opens_invariants none
        no_unwind
    {
        let secret: &mut [u8] = &mut self.secret;
        wipe(secret);
    }
}

impl TicketSecret {
    /// A secret that a sealing key comes from.
    pub fn new(secret: [u8; 32]) -> (r: Self)
        ensures
            r@ == secret@,
    {
        Self { secret }
    }

    fn aead_key(&self) -> (r: Result<[u8; 16], TicketError>)
        ensures
            r is Ok,
            r->Ok_0@ == ticket_key(self@),
    {
        let mut key: [u8; 16] = [0u8; 16];
        let none: [u8; 0] = [];
        assert(none@ =~= Seq::<u8>::empty());
        proof {
            lemma_ticket_key(self@);
        }
        let out: &mut [u8] = &mut key;
        match Hkdf::new(Algorithm::Sha256).expand_label(&self.secret, "ticket", &none, out) {
            Ok(()) => Ok(key),
            Err(_) => Err(TicketError::BadKey),
        }
    }

    /// Seals a ticket under a nonce that the system's randomness gives.
    pub fn encrypt(&self, psk: &[u8; PSK_LEN], age_add: u32, issued_at_ms: u64, suite: u16, alpn: &[u8]) -> (r:
        Result<EncryptedTicket, TicketError>)
        ensures
            alpn@.len() > MAX_ALPN_LEN ==> r is Err && r->Err_0 == TicketError::BadFormat,
            alpn@.len() <= MAX_ALPN_LEN ==> r is Ok || r->Err_0 == TicketError::BadKey,
            r is Ok ==> {
                let t = TicketView { psk: psk@, age_add, issued_at_ms, suite, alpn: alpn@ };
                &&& r->Ok_0@.len() == 75 + alpn@.len()
                &&& opened_ticket(ticket_key(self@), r->Ok_0@) == Ok::<TicketView, TicketError>(t)
                &&& is_sealed_ticket(ticket_key(self@), r->Ok_0@, t)
            },
    {
        if alpn.len() > MAX_ALPN_LEN {
            return Err(TicketError::BadFormat);
        }
        match random_array() {
            Some(nonce) => self.seal(psk, age_add, issued_at_ms, suite, alpn, nonce),
            None => Err(TicketError::BadKey),
        }
    }

    /// Seals a ticket under a nonce. What is sealed opens to the same.
    pub fn seal(
        &self,
        psk: &[u8; PSK_LEN],
        age_add: u32,
        issued_at_ms: u64,
        suite: u16,
        alpn: &[u8],
        nonce: [u8; TICKET_NONCE_LEN],
    ) -> (r: Result<EncryptedTicket, TicketError>)
        ensures
            alpn@.len() > MAX_ALPN_LEN ==> r is Err && r->Err_0 == TicketError::BadFormat,
            alpn@.len() <= MAX_ALPN_LEN ==> {
                let t = TicketView { psk: psk@, age_add, issued_at_ms, suite, alpn: alpn@ };
                &&& r is Ok
                &&& r->Ok_0@ == sealed_ticket(ticket_key(self@), nonce@, t)
                &&& r->Ok_0@.len() == 75 + alpn@.len()
                &&& opened_ticket(ticket_key(self@), r->Ok_0@) == Ok::<TicketView, TicketError>(t)
            },
    {
        if alpn.len() > MAX_ALPN_LEN {
            return Err(TicketError::BadFormat);
        }
        let ghost t = TicketView { psk: psk@, age_add, issued_at_ms, suite, alpn: alpn@ };
        let mut key = self.aead_key()?;
        let mut plain: Vec<u8> = Vec::new();
        crate::codec::put_slice(&mut plain, psk);
        put_u32(&mut plain, age_add);
        put_u64(&mut plain, issued_at_ms);
        put_u16(&mut plain, suite);
        crate::codec::put_vec_u8(&mut plain, alpn);
        assert(plain@ =~= plaintext_of(t));
        let none: [u8; 0] = [];
        assert(none@ =~= Seq::<u8>::empty());
        let body = ring_seal(AeadAlgorithm::Aes128Gcm, &key, nonce, &none, plain.as_slice());
        let spent: &mut [u8] = &mut key;
        wipe(spent);
        wipe(plain.as_mut_slice());
        let body = match body {
            Some(b) => b,
            None => return Err(TicketError::BadAuth),
        };
        let mut bytes = new_sealed();
        if !extend_sealed(&mut bytes, &nonce) || !extend_sealed(&mut bytes, body.as_slice()) {
            return Err(TicketError::BadFormat);
        }
        proof {
            law_content_round_trip(t);
            let b = sealed_bytes(bytes);
            assert(b =~= nonce@ + body@);
            assert(b.take(12) =~= nonce@);
            assert(b.skip(12) =~= body@);
        }
        Ok(EncryptedTicket { bytes })
    }

    /// Opens a ticket.
    pub fn decrypt(&self, ticket: &[u8]) -> (r: Result<DecryptedTicket, TicketError>)
        ensures
            match opened_ticket(ticket_key(self@), ticket@) {
                Ok(t) => r is Ok && r->Ok_0@ == t,
                Err(e) => r is Err && r->Err_0 == e,
            },
    {
        if ticket.len() < TICKET_NONCE_LEN + FIXED_PLAINTEXT_LEN + TICKET_TAG_LEN || ticket.len()
            > MAX_TICKET_LEN {
            return Err(TicketError::BadFormat);
        }
        let key = self.aead_key()?;
        let head = slice_subrange(ticket, 0, TICKET_NONCE_LEN);
        let body = slice_subrange(ticket, TICKET_NONCE_LEN, ticket.len());
        assert(head@ =~= ticket@.take(12));
        assert(body@ =~= ticket@.skip(12));
        let nonce: [u8; TICKET_NONCE_LEN] = to_array(head);
        let none: [u8; 0] = [];
        assert(none@ =~= Seq::<u8>::empty());
        let mut plain = match ring_open(AeadAlgorithm::Aes128Gcm, &key, nonce, &none, body) {
            Some(p) => p,
            None => return Err(TicketError::BadAuth),
        };
        let content = Self::read_plaintext(plain.as_slice());
        wipe(plain.as_mut_slice());
        content
    }

    /// Reads what the bytes of a ticket say.
    pub fn read_plaintext(plain: &[u8]) -> (r: Result<DecryptedTicket, TicketError>)
        ensures
            match content_of(plain@) {
                Ok(t) => r is Ok && r->Ok_0@ == t,
                Err(e) => r is Err && r->Err_0 == e,
            },
    {
        if plain.len() < FIXED_PLAINTEXT_LEN {
            return Err(TicketError::BadFormat);
        }
        let alpn_len: usize = plain[46] as usize;
        if plain.len() != FIXED_PLAINTEXT_LEN + alpn_len {
            return Err(TicketError::BadFormat);
        }
        let psk_bytes = slice_subrange(plain, 0, PSK_LEN);
        assert(psk_bytes@ =~= plain@.take(32));
        let psk: [u8; PSK_LEN] = to_array(psk_bytes);
        let age_add: u32 = read_be32(plain, 32);
        let issued_at_ms: u64 = read_be32(plain, 36) as u64 * 0x1_0000_0000 + read_be32(plain, 40) as u64;
        assert(plain@.skip(36).skip(4) =~= plain@.skip(40));
        assert(issued_at_ms == from_be64(plain@.skip(36)));
        let suite: u16 = plain[44] as u16 * 256 + plain[45] as u16;
        assert(suite == from_be16(plain@.skip(44)));
        let protocol = slice_subrange(plain, FIXED_PLAINTEXT_LEN, plain.len());
        assert(protocol@ =~= plain@.skip(47));
        match alpn_from(protocol) {
            Some(alpn) => Ok(DecryptedTicket { psk, age_add, issued_at_ms, suite, alpn }),
            None => Err(TicketError::BadFormat),
        }
    }
}

fn read_be32(s: &[u8], at: usize) -> (r: u32)
    requires
        at + 4 <= s@.len(),
    ensures
        r == from_be32(s@.skip(at as int)),
{
    s[at] as u32 * 16777216 + s[at + 1] as u32 * 65536 + s[at + 2] as u32 * 256 + s[at + 3] as u32
}

/// The secret that seals and opens, and the one of the generation before, which
/// opens.
#[verifier::ext_equal]
pub struct TicketKeysView {
    pub current: Seq<u8>,
    pub previous: Option<Seq<u8>>,
}

/// What a ticket says, where it opens under one of two generations.
pub open spec fn accepted_ticket(k: TicketKeysView, ticket: Seq<u8>) -> Result<TicketView, TicketError> {
    match opened_ticket(ticket_key(k.current), ticket) {
        Ok(t) => Ok(t),
        Err(e) => match k.previous {
            Some(p) => opened_ticket(ticket_key(p), ticket),
            None => Err(e),
        },
    }
}

/// Two generations of ticket secrets: tickets are sealed under the current one,
/// and opened under the one before too.
pub struct TicketKeys {
    current: TicketSecret,
    previous: Option<TicketSecret>,
}

impl View for TicketKeys {
    type V = TicketKeysView;

    closed spec fn view(&self) -> TicketKeysView {
        TicketKeysView {
            current: self.current@,
            previous: match self.previous {
                Some(p) => Some(p@),
                None => None,
            },
        }
    }
}

impl TicketKeys {
    /// One generation.
    pub fn single(secret: [u8; 32]) -> (r: Self)
        ensures
            r@ == (TicketKeysView { current: secret@, previous: None }),
    {
        Self { current: TicketSecret::new(secret), previous: None }
    }

    /// A generation and perhaps the one before.
    pub fn with_previous(current: [u8; 32], previous: Option<[u8; 32]>) -> (r: Self)
        ensures
            r@.current == current@,
            match previous {
                Some(p) => r@.previous == Some(p@),
                None => r@.previous is None,
            },
    {
        let previous = match previous {
            Some(p) => Some(TicketSecret::new(p)),
            None => None,
        };
        Self { current: TicketSecret::new(current), previous }
    }

    /// Seals a ticket under the current generation and a nonce that the system's
    /// randomness gives.
    pub fn encrypt(&self, psk: &[u8; PSK_LEN], age_add: u32, issued_at_ms: u64, suite: u16, alpn: &[u8]) -> (r:
        Result<EncryptedTicket, TicketError>)
        ensures
            alpn@.len() > MAX_ALPN_LEN ==> r is Err && r->Err_0 == TicketError::BadFormat,
            alpn@.len() <= MAX_ALPN_LEN ==> r is Ok || r->Err_0 == TicketError::BadKey,
            r is Ok ==> {
                let t = TicketView { psk: psk@, age_add, issued_at_ms, suite, alpn: alpn@ };
                &&& r->Ok_0@.len() == 75 + alpn@.len()
                &&& opened_ticket(ticket_key(self@.current), r->Ok_0@) == Ok::<TicketView, TicketError>(t)
                &&& is_sealed_ticket(ticket_key(self@.current), r->Ok_0@, t)
                &&& accepted_ticket(self@, r->Ok_0@) == Ok::<TicketView, TicketError>(t)
            },
    {
        self.current.encrypt(psk, age_add, issued_at_ms, suite, alpn)
    }

    /// Seals a ticket under the current generation and a nonce.
    pub fn seal(
        &self,
        psk: &[u8; PSK_LEN],
        age_add: u32,
        issued_at_ms: u64,
        suite: u16,
        alpn: &[u8],
        nonce: [u8; TICKET_NONCE_LEN],
    ) -> (r: Result<EncryptedTicket, TicketError>)
        ensures
            alpn@.len() > MAX_ALPN_LEN ==> r is Err && r->Err_0 == TicketError::BadFormat,
            alpn@.len() <= MAX_ALPN_LEN ==> {
                let t = TicketView { psk: psk@, age_add, issued_at_ms, suite, alpn: alpn@ };
                &&& r is Ok
                &&& r->Ok_0@ == sealed_ticket(ticket_key(self@.current), nonce@, t)
                &&& r->Ok_0@.len() == 75 + alpn@.len()
                &&& accepted_ticket(self@, r->Ok_0@) == Ok::<TicketView, TicketError>(t)
            },
    {
        self.current.seal(psk, age_add, issued_at_ms, suite, alpn, nonce)
    }

    /// Opens a ticket under the current generation or the one before.
    pub fn decrypt(&self, ticket: &[u8]) -> (r: Result<DecryptedTicket, TicketError>)
        ensures
            match accepted_ticket(self@, ticket@) {
                Ok(t) => r is Ok && r->Ok_0@ == t,
                Err(e) => r is Err && r->Err_0 == e,
            },
    {
        match self.current.decrypt(ticket) {
            Ok(v) => Ok(v),
            Err(e) => match &self.previous {
                Some(p) => p.decrypt(ticket),
                None => Err(e),
            },
        }
    }
}

/// The secrets and the schedule of a rotator.
#[verifier::ext_equal]
pub struct TicketRotatorView {
    pub keys: TicketKeysView,
    pub schedule: Schedule,
}

/// A rotator that starts with a secret.
pub open spec fn started(
    secret: Seq<u8>,
    now_ms: u64,
    rotate_after_ms: u64,
    rotate_after_count: u64,
) -> TicketRotatorView {
    TicketRotatorView {
        keys: TicketKeysView { current: secret, previous: None },
        schedule: Schedule {
            current_since_ms: now_ms,
            issued_under_current: 0,
            rotate_after_ms,
            rotate_after_count,
        },
    }
}

/// A rotator whose current secret was replaced.
pub open spec fn replaced(v: TicketRotatorView, next: Seq<u8>, now_ms: u64) -> TicketRotatorView {
    TicketRotatorView {
        keys: TicketKeysView { current: next, previous: Some(v.keys.current) },
        schedule: Schedule { current_since_ms: now_ms, issued_under_current: 0, ..v.schedule },
    }
}

/// A rotator under whose current secret one more ticket is sealed.
pub open spec fn counted(v: TicketRotatorView) -> TicketRotatorView {
    TicketRotatorView {
        keys: v.keys,
        schedule: Schedule {
            issued_under_current: if v.schedule.issued_under_current == u64::MAX {
                u64::MAX
            } else {
                (v.schedule.issued_under_current + 1) as u64
            },
            ..v.schedule
        },
    }
}

/// A ticket sealed before a secret was replaced is still accepted after it, unless
/// the new secret opens it too.
pub proof fn law_replaced_secret_accepted(v: TicketRotatorView, next: Seq<u8>, now_ms: u64, ticket: Seq<u8>)
    requires
        opened_ticket(ticket_key(v.keys.current), ticket) is Ok,
    ensures
        accepted_ticket(replaced(v, next, now_ms).keys, ticket) is Ok,
        opened_ticket(ticket_key(next), ticket) is Err ==> accepted_ticket(
            replaced(v, next, now_ms).keys,
            ticket,
        ) == opened_ticket(ticket_key(v.keys.current), ticket),
{
}

/// Ticket secrets that are replaced by age or by how many tickets were sealed; one
/// generation before the current is kept.
pub struct TicketRotator {
    current: [u8; 32],
    previous: Option<[u8; 32]>,
    schedule: Schedule,
}

impl View for TicketRotator {
    type V = TicketRotatorView;

    closed spec fn view(&self) -> TicketRotatorView {
        TicketRotatorView {
            keys: TicketKeysView {
                current: self.current@,
                previous: match self.previous {
                    Some(p) => Some(p@),
                    None => None,
                },
            },
            schedule: self.schedule,
        }
    }
}

impl Drop for TicketRotator {
    fn drop(&mut self)
        opens_invariants none
        no_unwind
    {
        let current: &mut [u8] = &mut self.current;
        wipe(current);
        match &mut self.previous {
            Some(p) => {
                let previous: &mut [u8] = p;
                wipe(previous);
            },
            None => {},
        }
    }
}

impl TicketRotator {
    /// A rotator with a secret of random bytes.
    pub fn new(now_ms: u64, rotate_after_ms: u64, rotate_after_count: u64) -> (r: Result<Self, TicketError>)
        ensures
            r is Err ==> r->Err_0 == TicketError::BadKey,
            r is Ok ==> r->Ok_0@.keys.current.len() == 32 && r->Ok_0@ == started(
                r->Ok_0@.keys.current,
                now_ms,
                rotate_after_ms,
                rotate_after_count,
            ),
    {
        match random_array() {
            Some(secret) => Ok(Self::from_secret(secret, now_ms, rotate_after_ms, rotate_after_count)),
            None => Err(TicketError::BadKey),
        }
    }

    /// A rotator with a secret.
    pub fn from_secret(secret: [u8; 32], now_ms: u64, rotate_after_ms: u64, rotate_after_count: u64) -> (r: Self)
        ensures
            r@ == started(secret@, now_ms, rotate_after_ms, rotate_after_count),
    {
        Self {
            current: secret,
            previous: None,
            schedule: Schedule {
                current_since_ms: now_ms,
                issued_under_current: 0,
                rotate_after_ms,
                rotate_after_count,
            },
        }
    }

    /// Replaces the current secret.
    pub fn rotate(&mut self, next: [u8; 32], now_ms: u64)
        ensures
            final(self)@ == replaced(old(self)@, next@, now_ms),
    {
        self.previous = Some(self.current);
        self.current = next;
        self.schedule.current_since_ms = now_ms;
        self.schedule.issued_under_current = 0;
    }

    /// Keys for sealing a ticket now, replacing the current secret first where it is
    /// due.
    pub fn issuing_keys(&mut self, now_ms: u64) -> (r: Result<TicketKeys, TicketError>)
        ensures
            r is Err ==> r->Err_0 == TicketError::BadKey && is_due(old(self)@.schedule, now_ms) && final(self)@
                == old(self)@,
            r is Ok ==> r->Ok_0@ == final(self)@.keys,
            r is Ok && !is_due(old(self)@.schedule, now_ms) ==> final(self)@ == counted(old(self)@),
            r is Ok && is_due(old(self)@.schedule, now_ms) ==> final(self)@.keys.current.len() == 32
                && final(self)@ == counted(replaced(old(self)@, final(self)@.keys.current, now_ms)),
    {
        if self.schedule.due(now_ms) {
            match random_array() {
                Some(next) => self.rotate(next, now_ms),
                None => return Err(TicketError::BadKey),
            }
        }
        Ok(self.issue())
    }

    /// Counts one more ticket, and gives out the keys.
    pub fn issue(&mut self) -> (r: TicketKeys)
        ensures
            final(self)@ == counted(old(self)@),
            r@ == old(self)@.keys,
    {
        self.schedule.issued_under_current = self.schedule.issued_under_current.saturating_add(1);
        self.accepting_keys()
    }

    /// Current and previous keys for opening, without replacing any.
    pub fn accepting_keys(&self) -> (r: TicketKeys)
        ensures
            r@ == self@.keys,
    {
        TicketKeys::with_previous(self.current, self.previous)
    }
}

} // verus!
