//! How messages are laid out, and which are taken.

use vstd::prelude::*;

use crate::codec::{be16, be24, be32, put_all, vec16, vec24, vec8};
use crate::extension::{extension_enc, extensions_bytes, extensions_fit, ExtensionView};
use crate::handshake::reassemblers::{next_outcome, ReassemblerView};
use crate::handshake::{entry_enc, get_handshake, u16_enc, CertificateEntryView, HandshakeView};
use crate::Error;

verus! {

/// A number of two bytes, the most significant first.
pub open spec fn n16(v: nat) -> Seq<u8> {
    seq![(v / 256) as u8, (v % 256) as u8]
}

/// A number of three bytes, the most significant first.
pub open spec fn n24(v: nat) -> Seq<u8> {
    seq![(v / 65536) as u8, (v / 256 % 256) as u8, (v % 256) as u8]
}

/// A number of four bytes, the most significant first.
pub open spec fn n32(v: nat) -> Seq<u8> {
    seq![(v / 16777216) as u8, (v / 65536 % 256) as u8, (v / 256 % 256) as u8, (v % 256) as u8]
}

/// Bytes with their number in one byte in front.
pub open spec fn l8(s: Seq<u8>) -> Seq<u8> {
    seq![s.len() as u8] + s
}

/// Bytes with their number in two bytes in front.
pub open spec fn l16(s: Seq<u8>) -> Seq<u8> {
    n16(s.len()) + s
}

/// Bytes with their number in three bytes in front.
pub open spec fn l24(s: Seq<u8>) -> Seq<u8> {
    n24(s.len()) + s
}

/// Numbers of two bytes one behind the other.
pub open spec fn all_n16(l: Seq<u16>) -> Seq<u8>
    decreases l.len(),
{
    if l.len() == 0 {
        Seq::empty()
    } else {
        n16(l[0] as nat) + all_n16(l.skip(1))
    }
}

/// Extensions one behind the other, each its type and its data.
pub open spec fn all_extensions(l: Seq<ExtensionView>) -> Seq<u8>
    decreases l.len(),
{
    if l.len() == 0 {
        Seq::empty()
    } else {
        n16(l[0].0 as nat) + l16(l[0].1) + all_extensions(l.skip(1))
    }
}

/// Certificates one behind the other, each with its extensions.
pub open spec fn all_entries(l: Seq<CertificateEntryView>) -> Seq<u8>
    decreases l.len(),
{
    if l.len() == 0 {
        Seq::empty()
    } else {
        l24(l[0].cert_data) + l16(all_extensions(l[0].extensions)) + all_entries(l.skip(1))
    }
}

proof fn lemma_numbers(a: u16, b: u32)
    ensures
        be16(a) == n16(a as nat),
        b < 0x100_0000 ==> be24(b) == n24(b as nat),
        be32(b) == n32(b as nat),
{
    assert(be16(a) =~= n16(a as nat));
    if b < 0x100_0000 {
        assert(be24(b) =~= n24(b as nat));
    }
    assert(be32(b) =~= n32(b as nat));
}

proof fn lemma_lists(s: Seq<u8>)
    ensures
        vec8(s) == l8(s),
        s.len() <= 0xffff ==> vec16(s) == l16(s),
        s.len() <= 0xff_ffff ==> vec24(s) == l24(s),
{
    if s.len() <= 0xffff {
        lemma_numbers(s.len() as u16, 0);
    }
    if s.len() <= 0xff_ffff {
        lemma_numbers(0, s.len() as u32);
    }
}

proof fn lemma_all_n16(l: Seq<u16>)
    ensures
        put_all(u16_enc(), l) == all_n16(l),
        all_n16(l).len() == 2 * l.len(),
    decreases l.len(),
{
    if l.len() > 0 {
        lemma_all_n16(l.skip(1));
        lemma_numbers(l[0], 0);
    }
}

proof fn lemma_all_extensions(l: Seq<ExtensionView>)
    requires
        forall|i: int| 0 <= i < l.len() ==> (#[trigger] l[i]).1.len() <= 0xffff,
    ensures
        put_all(extension_enc(), l) == all_extensions(l),
    decreases l.len(),
{
    if l.len() > 0 {
        let tail = l.skip(1);
        assert forall|i: int| 0 <= i < tail.len() implies (#[trigger] tail[i]).1.len() <= 0xffff by {
            assert(tail[i] == l[i + 1]);
        }
        lemma_all_extensions(tail);
        lemma_numbers(l[0].0, 0);
        lemma_lists(l[0].1);
    }
}

proof fn lemma_extensions(l: Seq<ExtensionView>)
    requires
        extensions_fit(l),
    ensures
        extensions_bytes(l) == l16(all_extensions(l)),
{
    lemma_all_extensions(l);
    lemma_lists(all_extensions(l));
}

proof fn lemma_all_entries(l: Seq<CertificateEntryView>)
    requires
        forall|i: int| 0 <= i < l.len() ==> (#[trigger] l[i]).fits(),
    ensures
        put_all(entry_enc(), l) == all_entries(l),
    decreases l.len(),
{
    if l.len() > 0 {
        let tail = l.skip(1);
        assert forall|i: int| 0 <= i < tail.len() implies (#[trigger] tail[i]).fits() by {
            assert(tail[i] == l[i + 1]);
        }
        assert(l[0].fits());
        lemma_all_entries(tail);
        lemma_lists(l[0].cert_data);
        lemma_extensions(l[0].extensions);
    }
}

/// The bodies of messages, field by field.
pub proof fn law_bodies(m: HandshakeView)
    requires
        m.fits(),
    ensures
        m.body() == match m {
            HandshakeView::ClientHello(h) => n16(h.legacy_version as nat) + h.random + l8(h.legacy_session_id) + l16(
                all_n16(h.cipher_suites),
            ) + l8(h.legacy_compression_methods) + l16(all_extensions(h.extensions)),
            HandshakeView::ServerHello(h) => n16(h.legacy_version as nat) + h.random + l8(h.legacy_session_id_echo)
                + n16(h.cipher_suite as nat) + seq![h.legacy_compression_method] + l16(all_extensions(h.extensions)),
            HandshakeView::EndOfEarlyData => Seq::<u8>::empty(),
            HandshakeView::EncryptedExtensions(x) => l16(all_extensions(x)),
            HandshakeView::CertificateRequest(r) => l8(r.certificate_request_context) + l16(
                all_extensions(r.extensions),
            ),
            HandshakeView::Certificate(c) => l8(c.certificate_request_context) + l24(all_entries(c.certificate_list)),
            HandshakeView::CertificateVerify(v) => n16(v.algorithm as nat) + l16(v.signature),
            HandshakeView::Finished(v) => v,
            HandshakeView::KeyUpdate(v) => seq![v],
            HandshakeView::NewSessionTicket(t) => n32(t.ticket_lifetime as nat) + n32(t.ticket_age_add as nat) + l8(
                t.ticket_nonce,
            ) + l16(t.ticket) + l16(all_extensions(t.extensions)),
        },
{
    match m {
        HandshakeView::ClientHello(h) => {
            lemma_numbers(h.legacy_version, 0);
            lemma_lists(h.legacy_session_id);
            lemma_all_n16(h.cipher_suites);
            lemma_lists(all_n16(h.cipher_suites));
            lemma_lists(h.legacy_compression_methods);
            lemma_extensions(h.extensions);
        },
        HandshakeView::ServerHello(h) => {
            lemma_numbers(h.legacy_version, 0);
            lemma_numbers(h.cipher_suite, 0);
            lemma_lists(h.legacy_session_id_echo);
            lemma_extensions(h.extensions);
        },
        HandshakeView::EncryptedExtensions(x) => {
            lemma_extensions(x);
        },
        HandshakeView::CertificateRequest(r) => {
            lemma_lists(r.certificate_request_context);
            lemma_extensions(r.extensions);
        },
        HandshakeView::Certificate(c) => {
            lemma_lists(c.certificate_request_context);
            lemma_all_entries(c.certificate_list);
            lemma_lists(all_entries(c.certificate_list));
        },
        HandshakeView::CertificateVerify(v) => {
            lemma_numbers(v.algorithm, 0);
            lemma_lists(v.signature);
        },
        HandshakeView::NewSessionTicket(t) => {
            lemma_numbers(0, t.ticket_lifetime);
            lemma_numbers(0, t.ticket_age_add);
            lemma_lists(t.ticket_nonce);
            lemma_lists(t.ticket);
            lemma_extensions(t.extensions);
        },
        _ => {},
    }
}

/// What the next message is, from the bytes that have come: nothing while they are not
/// all there, an error for one that is too long or that says nothing, and no more than
/// eight key updates between two records.
pub proof fn law_next_message(r: ReassemblerView)
    ensures
        r.pending.len() < 4 ==> next_outcome(r) == Ok::<Option<(HandshakeView, Seq<u8>)>, Error>(None),
        r.pending.len() >= 4 ==> {
            let p = r.pending;
            let n = 4 + p[1] * 65536 + p[2] * 256 + p[3];
            &&& n > 262144 ==> next_outcome(r) == Err::<Option<(HandshakeView, Seq<u8>)>, Error>(Error::Decode)
            &&& n <= 262144 && p.len() < n ==> next_outcome(r) == Ok::<Option<(HandshakeView, Seq<u8>)>, Error>(None)
            &&& n <= 262144 && p.len() >= n ==> match get_handshake(p.take(n)) {
                Err(_) => next_outcome(r) == Err::<Option<(HandshakeView, Seq<u8>)>, Error>(Error::Decode),
                Ok((m, rest)) => rest.len() == 0 ==> next_outcome(r) == if m is KeyUpdate && r.key_updates >= 8 {
                    Err::<Option<(HandshakeView, Seq<u8>)>, Error>(Error::UnexpectedMessage)
                } else {
                    Ok(Some((m, p.take(n))))
                },
            }
        },
{
    if r.pending.len() >= 4 {
        let s = r.pending.skip(1);
        assert(s[0] == r.pending[1] && s[1] == r.pending[2] && s[2] == r.pending[3]);
    }
}

} // verus!
