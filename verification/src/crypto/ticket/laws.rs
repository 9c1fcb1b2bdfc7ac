//! What tickets hold, and for how long they are good.

use vstd::prelude::*;

use crate::codec::be64;
use crate::crypto::aead::{opened, sealed, AeadAlgorithm};
use crate::crypto::hash::{digest_of, Algorithm};
use crate::crypto::kdf::label_bytes;
use crate::crypto::laws::{code, law_short_key_is_one_code};
use crate::crypto::ticket::claims::{claims_bytes, law_claims_round_trip, ClaimsView};
use crate::crypto::ticket::context::{allowance, law_context_round_trip, ContextView};
use crate::crypto::ticket::keys::{keys_claims, KeysView};
use crate::crypto::ticket::rotator::{fresh, is_due, issued, rotated, RotatorView, Schedule};
use crate::crypto::ticket::secret::{ticket_claims, ticket_key, ticket_of};
use crate::crypto::ticket::Error;
use crate::handshake::layout::{l8, n16, n32};
use crate::record::CipherSuite;
use crate::ticket::{
    accepted_ticket, counted, law_content_round_trip, opened_ticket, plaintext_of, replaced, sealed_ticket, started,
    TicketError, TicketKeysView, TicketRotatorView, TicketView,
};
use crate::transport::Mode;

verus! {

/// A number of eight bytes, the most significant first.
pub open spec fn n64(v: nat) -> Seq<u8> {
    n32(v / 0x1_0000_0000) + n32(v % 0x1_0000_0000)
}

proof fn lemma_n(a: u16, b: u32, c: u64)
    ensures
        crate::codec::be16(a) == n16(a as nat),
        crate::codec::be32(b) == n32(b as nat),
        be64(c) == n64(c as nat),
{
    assert(crate::codec::be16(a) =~= n16(a as nat));
    assert(crate::codec::be32(b) =~= n32(b as nat));
    assert(be64(c) =~= n64(c as nat));
}

/// What a ticket says is laid out field by field: the key, the number that its age is
/// hidden with, the time of its making, the suite, the terms of early data and the
/// protocol.
pub proof fn law_claims_layout(c: ClaimsView)
    requires
        c.alpn.len() <= 255,
        c.context.replay_domain is Some,
        c.context.max_early_data matches Some(m) ==> m != 0 && (c.context.mode == Mode::Tls ==> m != 0xffff_ffff) && (
        c.context.mode == Mode::Quic ==> m == 0xffff_ffff),
    ensures
        claims_bytes(c) == Ok::<Seq<u8>, Error>(
            c.psk + n32(c.age_add as nat) + n64(c.issued_at_ms as nat) + n16(
                match c.suite {
                    CipherSuite::Aes128GcmSha256 => 0x1301nat,
                    CipherSuite::Aes256GcmSha384 => 0x1302,
                    CipherSuite::ChaCha20Poly1305Sha256 => 0x1303,
                },
            ) + (seq![
                2u8,
                if c.context.mode == Mode::Tls {
                    0u8
                } else {
                    1
                },
                if c.context.max_early_data is Some {
                    1u8
                } else {
                    0
                },
            ] + n32(
                match c.context.max_early_data {
                    Some(m) => m as nat,
                    None => 0,
                },
            ) + c.context.params_hash + c.context.replay_domain->0) + l8(c.alpn),
        ),
{
    lemma_n(0, c.age_add, c.issued_at_ms);
    lemma_n(0x1301, 0, 0);
    lemma_n(0x1302, 0, 0);
    lemma_n(0x1303, 0, 0);
    if c.context.max_early_data is Some {
        lemma_n(0, c.context.max_early_data->0, 0);
    }
}

/// What cannot be said is refused: a protocol that is too long, terms without a domain,
/// and an amount of early data that the transport does not have.
pub proof fn law_claims_refused(c: ClaimsView)
    requires
        c.alpn.len() > 255 || c.context.replay_domain is None || c.context.max_early_data == Some(0u32) || c.context.mode
            == Mode::Tls && c.context.max_early_data == Some(0xffff_ffffu32) || c.context.mode == Mode::Quic
            && c.context.max_early_data is Some && c.context.max_early_data != Some(0xffff_ffffu32),
    ensures
        claims_bytes(c) == Err::<Seq<u8>, Error>(Error::BadFormat),
{
}

/// Whether under a key the cipher of tickets opens what it seals.
pub open spec fn ticket_cipher_opens(key: Seq<u8>) -> bool {
    forall|nonce: Seq<u8>, p: Seq<u8>|
        #![trigger sealed(AeadAlgorithm::Aes128Gcm, key, nonce, Seq::empty(), p)]
        nonce.len() == 12 ==> {
            let c = sealed(AeadAlgorithm::Aes128Gcm, key, nonce, Seq::empty(), p);
            c.len() == p.len() + 16 && opened(AeadAlgorithm::Aes128Gcm, key, nonce, Seq::empty(), c) == Some(p)
        }
}

/// A ticket gives back what was sealed in it, to the one with the key and, after one
/// rotation of keys, still.
pub proof fn law_ticket_gives_back(key: Seq<u8>, other: Seq<u8>, nonce: Seq<u8>, c: ClaimsView)
    requires
        ticket_cipher_opens(key),
        nonce.len() == 12,
        c.psk.len() == 32,
        c.context.params_hash.len() == 32,
        c.context.replay_domain matches Some(d) ==> d.len() == 16,
        claims_bytes(c) is Ok,
    ensures
        ({
            let ticket = nonce + sealed(AeadAlgorithm::Aes128Gcm, key, nonce, Seq::empty(), claims_bytes(c)->Ok_0);
            &&& ticket_of(key, nonce, claims_bytes(c)->Ok_0) == ticket
            &&& keys_claims(KeysView { current: key, previous: None }, ticket) == Ok::<ClaimsView, Error>(c)
            &&& keys_claims(KeysView { current: key, previous: Some(other) }, ticket) == Ok::<ClaimsView, Error>(c)
            &&& ticket_claims(other, ticket) is Err ==> keys_claims(
                KeysView { current: other, previous: Some(key) },
                ticket,
            ) == Ok::<ClaimsView, Error>(c)
            &&& ticket_claims(other, ticket) is Err ==> keys_claims(KeysView { current: other, previous: None }, ticket)
                == ticket_claims(other, ticket)
        }),
{
    let p = claims_bytes(c)->Ok_0;
    let sealed_claims = sealed(AeadAlgorithm::Aes128Gcm, key, nonce, Seq::empty(), p);
    let ticket = nonce + sealed_claims;
    law_claims_round_trip(c);
    law_context_round_trip(c.context);
    assert(p.len() == 102 + c.alpn.len());
    assert(ticket.take(12) =~= nonce);
    assert(ticket.skip(12) =~= sealed_claims);
}

/// The key of tickets is a code over its purpose.
pub proof fn law_ticket_key(secret: Seq<u8>)
    ensures
        ticket_key(secret) == code(
            Algorithm::Sha256,
            secret,
            seq![0x74u8, 0x69, 0x63, 0x6b, 0x65, 0x74],
            Seq::empty(),
            16,
        ),
{
    reveal_strlit("ticket");
    broadcast use vstd::utf8::is_ascii_chars_encode_utf8;

    assert(vstd::utf8::is_ascii_chars("ticket"@));
    assert(label_bytes("ticket") =~= seq![0x74u8, 0x69, 0x63, 0x6b, 0x65, 0x74]);
    law_short_key_is_one_code(Algorithm::Sha256, secret, label_bytes("ticket"), Seq::empty(), 16);
}

/// Early data is allowed by a ticket up to its amount, where it was made for the same
/// transport, parameters and domain and the amount is one that the transport has, and not
/// otherwise.
pub proof fn law_early_data_terms(c: ContextView, mode: Mode, params: Seq<u8>, domain: Seq<u8>)
    ensures
        allowance(c, mode, params, domain) == if c.mode == mode && c.params_hash == digest_of(Algorithm::Sha256, params)
            && c.replay_domain == Some(domain) && c.max_early_data != Some(0u32) && (mode == Mode::Tls ==> c.max_early_data
            != Some(0xffff_ffffu32)) && (mode == Mode::Quic ==> c.max_early_data == Some(0xffff_ffffu32)) {
            c.max_early_data
        } else {
            None
        },
{
}

/// A key is due to be replaced when it is old enough or has sealed enough tickets; a
/// clock that runs back does not age it.
pub proof fn law_due(s: Schedule, now: u64)
    ensures
        s.current_since_ms <= now ==> (is_due(s, now) <==> now >= s.current_since_ms + s.rotate_after_ms
            || s.issued_under_current >= s.rotate_after_count),
        s.current_since_ms > now ==> (is_due(s, now) <==> s.rotate_after_ms == 0 || s.issued_under_current
            >= s.rotate_after_count),
{
}

/// Keys go on from one to the next: the first has none before it, a new one keeps the one
/// before it and starts its count and its age anew, and each ticket counts for one.
pub proof fn law_keys_go_on(secret: Seq<u8>, next: Seq<u8>, now: u64, later: u64, age: u64, count: u64)
    ensures
        ({
            let a = fresh(secret, now, age, count);
            let b = issued(a);
            let c = rotated(b, next, later);
            &&& a.keys.current == ticket_key(secret)
            &&& a.keys.previous is None
            &&& a.schedule.current_since_ms == now && a.schedule.issued_under_current == 0
            &&& a.schedule.rotate_after_ms == age && a.schedule.rotate_after_count == count
            &&& b.keys == a.keys
            &&& b.schedule.issued_under_current == 1
            &&& b.schedule.current_since_ms == now
            &&& b.schedule.rotate_after_ms == age && b.schedule.rotate_after_count == count
            &&& c.keys.current == ticket_key(next)
            &&& c.keys.previous == Some(ticket_key(secret))
            &&& c.schedule.current_since_ms == later && c.schedule.issued_under_current == 0
            &&& c.schedule.rotate_after_ms == age && c.schedule.rotate_after_count == count
        }),
        ({
            let a = started(secret, now, age, count);
            let b = counted(a);
            let c = replaced(b, next, later);
            &&& a.keys.current == secret
            &&& a.keys.previous is None
            &&& a.schedule.current_since_ms == now && a.schedule.issued_under_current == 0
            &&& a.schedule.rotate_after_ms == age && a.schedule.rotate_after_count == count
            &&& b.keys == a.keys
            &&& b.schedule.issued_under_current == 1
            &&& b.schedule.current_since_ms == now
            &&& b.schedule.rotate_after_ms == age && b.schedule.rotate_after_count == count
            &&& c.keys.current == next
            &&& c.keys.previous == Some(secret)
            &&& c.schedule.current_since_ms == later && c.schedule.issued_under_current == 0
            &&& c.schedule.rotate_after_ms == age && c.schedule.rotate_after_count == count
        }),
{
}

/// Each ticket counts for one more, up to where the count ends.
pub proof fn law_each_ticket_counts(v: RotatorView, w: TicketRotatorView)
    ensures
        v.schedule.issued_under_current < u64::MAX ==> issued(v).schedule.issued_under_current
            == v.schedule.issued_under_current + 1,
        v.schedule.issued_under_current == u64::MAX ==> issued(v) == v,
        w.schedule.issued_under_current < u64::MAX ==> counted(w).schedule.issued_under_current
            == w.schedule.issued_under_current + 1,
        w.schedule.issued_under_current == u64::MAX ==> counted(w) == w,
{
}

/// What a plain ticket says is laid out field by field.
pub proof fn law_plain_layout(t: TicketView)
    requires
        t.alpn.len() <= 255,
    ensures
        plaintext_of(t) == t.psk + n32(t.age_add as nat) + n64(t.issued_at_ms as nat) + n16(t.suite as nat) + l8(t.alpn),
{
    lemma_n(t.suite, t.age_add, t.issued_at_ms);
}

/// A plain ticket gives back what was sealed in it, to the one with the secret and, after
/// one rotation, still.
pub proof fn law_plain_gives_back(secret: Seq<u8>, other: Seq<u8>, nonce: Seq<u8>, t: TicketView)
    requires
        ticket_cipher_opens(ticket_key(secret)),
        nonce.len() == 12,
        t.psk.len() == 32,
        t.alpn.len() <= 255,
    ensures
        ({
            let ticket = nonce + sealed(
                AeadAlgorithm::Aes128Gcm,
                ticket_key(secret),
                nonce,
                Seq::empty(),
                plaintext_of(t),
            );
            &&& sealed_ticket(ticket_key(secret), nonce, t) == ticket
            &&& accepted_ticket(TicketKeysView { current: secret, previous: None }, ticket) == Ok::<
                TicketView,
                TicketError,
            >(t)
            &&& accepted_ticket(TicketKeysView { current: secret, previous: Some(other) }, ticket) == Ok::<
                TicketView,
                TicketError,
            >(t)
            &&& opened_ticket(ticket_key(other), ticket) is Err ==> accepted_ticket(
                TicketKeysView { current: other, previous: Some(secret) },
                ticket,
            ) == Ok::<TicketView, TicketError>(t)
            &&& opened_ticket(ticket_key(other), ticket) is Err ==> accepted_ticket(
                TicketKeysView { current: other, previous: None },
                ticket,
            ) is Err
        }),
{
    let p = plaintext_of(t);
    let c = sealed(AeadAlgorithm::Aes128Gcm, ticket_key(secret), nonce, Seq::empty(), p);
    let ticket = nonce + c;
    law_content_round_trip(t);
    assert(p.len() == 47 + t.alpn.len());
    assert(ticket.take(12) =~= nonce);
    assert(ticket.skip(12) =~= c);
}

} // verus!
