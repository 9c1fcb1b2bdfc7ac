//! Whether a client's ticket is accepted, and whether its early data is.

use vstd::prelude::*;
use vstd::slice::slice_subrange;

use crate::codec::{get_vec8, to_vec};
use crate::crypto::hash::{digest_of, hashable, Algorithm, Transcript};
use crate::crypto::material::ct_eq;
use crate::crypto::schedule::resumption_hash;
use crate::extension::{find_extension, ExtensionType, ExtensionView};
use crate::handshake::ClientHello;
use crate::psk::{
    binder, byte_strings, get_offer, identities_view, whole, KxModes, Offer, ResumptionBinder,
    KX_MODE_PSK_DHE,
};
use crate::server::hello::{extension_data, has_u8};
use crate::ticket::{accepted_ticket, TicketError, TicketKeys, TicketKeysView, TicketView};

verus! {

/// Allowed skew between client-claimed and server-measured ticket age.
pub const MAX_TICKET_AGE_SKEW_MS: u64 = 10_000;

/// NewSessionTicket lifetime and upper bound of the 0-RTT freshness window.
pub const TICKET_LIFETIME_SECS: u32 = 7200;

pub const TICKET_LIFETIME_MS: u64 = 7_200_000;

/// How many bytes a list of one binder takes: the lengths of the list and of the
/// binder, and the binder.
pub const BINDERS_LEN: usize = 35;

/// A ticket that was accepted, and what came with it.
pub struct AcceptedPsk {
    pub psk: [u8; 32],
    pub age_add: u32,
    pub issued_at_ms: u64,
    pub suite: u16,
    pub obfuscated_ticket_age: u32,
    pub binder: Vec<u8>,
    pub alpn: Vec<u8>,
}

/// What an accepted ticket says, how old the client says it is, and its binder.
#[verifier::ext_equal]
pub struct AcceptedPskView {
    pub ticket: TicketView,
    pub obfuscated_ticket_age: u32,
    pub binder: Seq<u8>,
}

impl View for AcceptedPsk {
    type V = AcceptedPskView;

    open spec fn view(&self) -> AcceptedPskView {
        AcceptedPskView {
            ticket: TicketView {
                psk: self.psk@,
                age_add: self.age_add,
                issued_at_ms: self.issued_at_ms,
                suite: self.suite,
                alpn: self.alpn@,
            },
            obfuscated_ticket_age: self.obfuscated_ticket_age,
            binder: self.binder@,
        }
    }
}

/// What an optional ticket says.
pub open spec fn psk_view(p: Option<AcceptedPsk>) -> Option<AcceptedPskView> {
    match p {
        Some(p) => Some(p@),
        None => None,
    }
}

/// Whether a ticket was issued neither too long ago nor, clocks allowed for, in
/// the future.
pub open spec fn in_lifetime(issued_at_ms: u64, now: u64) -> bool {
    &&& issued_at_ms <= now + MAX_TICKET_AGE_SKEW_MS
    &&& now - issued_at_ms <= TICKET_LIFETIME_MS
}

/// Whether a client can go on with a ticket and a key exchange.
pub open spec fn resumes_with_exchange(exts: Seq<ExtensionView>) -> bool {
    match find_extension(exts, ExtensionType::PSK_KEY_EXCHANGE_MODES) {
        None => false,
        Some(data) => match whole(get_vec8(data)) {
            Err(_) => false,
            Ok(modes) => modes.contains(KX_MODE_PSK_DHE),
        },
    }
}

/// The first ticket that a client offers, how old it says that is, and its binder.
pub open spec fn first_ticket(exts: Seq<ExtensionView>) -> Option<(Seq<u8>, u32, Seq<u8>)> {
    match find_extension(exts, ExtensionType::PRE_SHARED_KEY) {
        None => None,
        Some(data) => match get_offer(data) {
            Err(_) => None,
            Ok((ids, binders)) => if ids.len() == 0 {
                None
            } else {
                Some((ids[0].0, ids[0].1, binders[0]))
            },
        },
    }
}

/// The ticket that a server accepts from a ClientHello `raw` with extensions
/// `exts`: one of its own, not expired, whose binder covers `before` and the
/// message up to its binders.
pub open spec fn accepted_psk(
    keys: TicketKeysView,
    now: u64,
    before: Seq<u8>,
    exts: Seq<ExtensionView>,
    raw: Seq<u8>,
) -> Option<AcceptedPskView> {
    if !resumes_with_exchange(exts) {
        None
    } else {
        match first_ticket(exts) {
            None => None,
            Some((identity, age, bind)) => if bind.len() != 32 {
                None
            } else {
                match accepted_ticket(keys, identity) {
                    Err(_) => None,
                    Ok(t) => if !in_lifetime(t.issued_at_ms, now) || raw.len() < BINDERS_LEN {
                        None
                    } else {
                        let partial = before + raw.take(raw.len() - BINDERS_LEN);
                        if bind == binder(t.psk, digest_of(resumption_hash(), partial)) {
                            Some(
                                AcceptedPskView {
                                    ticket: t,
                                    obfuscated_ticket_age: age,
                                    binder: bind,
                                },
                            )
                        } else {
                            None
                        }
                    },
                }
            },
        }
    }
}

/// The ticket that a server accepts at time `now`; `before` is the transcript where
/// a retry was asked for.
pub fn accept_psk(
    keys: &TicketKeys,
    now: u64,
    before: Option<&Transcript>,
    ch: &ClientHello,
    raw: &[u8],
) -> (r: Option<AcceptedPsk>)
    requires
        hashable(raw@),
        before matches Some(t) ==> hashable(t@.messages + raw@) && t@.selected is None,
    ensures
        psk_view(r) == accepted_psk(
            keys@,
            now,
            match before {
                Some(t) => t@.messages,
                None => Seq::empty(),
            },
            ch@.extensions,
            raw@,
        ),
        r matches Some(p) ==> p.binder@.len() == 32,
{
    let ghost exts = ch@.extensions;
    let kx = extension_data(&ch.extensions, ExtensionType::PSK_KEY_EXCHANGE_MODES)?;
    let modes = match KxModes::decode(kx) {
        Ok(m) => m,
        Err(_) => return None,
    };
    if !has_u8(modes.as_slice(), KX_MODE_PSK_DHE) {
        return None;
    }
    let offer = extension_data(&ch.extensions, ExtensionType::PRE_SHARED_KEY)?;
    let (ids, binders) = match Offer::decode(offer) {
        Ok(v) => v,
        Err(_) => return None,
    };
    assert(identities_view(ids@).len() == byte_strings(binders@).len());
    if ids.len() == 0 {
        return None;
    }
    assert(identities_view(ids@)[0] == ids@[0]@);
    assert(byte_strings(binders@)[0] == binders@[0]@);
    let id = &ids[0];
    let bind = &binders[0];
    if bind.len() != 32 {
        return None;
    }
    let ticket = match keys.decrypt(id.identity.as_slice()) {
        Ok(t) => t,
        Err(_) => return None,
    };
    if ticket.issued_at_ms > now.saturating_add(MAX_TICKET_AGE_SKEW_MS) {
        return None;
    }
    if now.saturating_sub(ticket.issued_at_ms) > TICKET_LIFETIME_MS {
        return None;
    }
    let n: usize = raw.len();
    if n < BINDERS_LEN {
        return None;
    }
    let mut t = match before {
        Some(t) => t.fork(),
        None => Transcript::new(),
    };
    let head = slice_subrange(raw, 0, n - BINDERS_LEN);
    let ghost earlier = t@.messages;
    t.update(head);
    assert(head@ =~= raw@.take(raw@.len() - BINDERS_LEN));
    assert(t@.messages =~= earlier + raw@.take(raw@.len() - BINDERS_LEN));
    let partial_hash = match t.hash(Algorithm::Sha256) {
        Ok(h) => h,
        Err(_) => return None,
    };
    let expected = ResumptionBinder::compute(&ticket.psk, partial_hash.as_slice());
    if !ct_eq(&expected, bind.as_slice()) {
        return None;
    }
    Some(
        AcceptedPsk {
            psk: ticket.psk,
            age_add: ticket.age_add,
            issued_at_ms: ticket.issued_at_ms,
            suite: ticket.suite,
            obfuscated_ticket_age: id.obfuscated_ticket_age,
            binder: to_vec(bind.as_slice()),
            alpn: to_vec(ticket.alpn()),
        },
    )
}

/// How old a client says that its ticket is.
pub open spec fn claimed_age(p: AcceptedPskView) -> int {
    (p.obfuscated_ticket_age - p.ticket.age_add) % 0x1_0000_0000
}

/// Whether a ticket is young enough, and as old as the client says, for its early
/// data to be taken at time `now`.
pub open spec fn is_fresh(p: AcceptedPskView, now: u64) -> bool {
    let age = now - p.ticket.issued_at_ms;
    &&& 0 <= age <= TICKET_LIFETIME_MS
    &&& -MAX_TICKET_AGE_SKEW_MS <= age - claimed_age(p) <= MAX_TICKET_AGE_SKEW_MS
}

impl AcceptedPsk {
    /// Whether the ticket is young enough, and as old as the client says, for its
    /// early data to be taken.
    pub fn fresh(&self, now: u64) -> (r: bool)
        ensures
            r == is_fresh(self@, now),
    {
        if now < self.issued_at_ms {
            return false;
        }
        let measured: u64 = now - self.issued_at_ms;
        if measured > TICKET_LIFETIME_MS {
            return false;
        }
        let claimed: u64 = self.obfuscated_ticket_age.wrapping_sub(self.age_add) as u64;
        assert(claimed == claimed_age(self@));
        let skew: u64 = if measured >= claimed {
            measured - claimed
        } else {
            claimed - measured
        };
        skew <= MAX_TICKET_AGE_SKEW_MS
    }
}

/// A ticket that was accepted is one that the server's keys open, is in its
/// lifetime, and came with the binder that its key gives.
pub proof fn law_accepted_psk_is_bound(
    keys: TicketKeysView,
    now: u64,
    before: Seq<u8>,
    exts: Seq<ExtensionView>,
    raw: Seq<u8>,
)
    ensures
        accepted_psk(keys, now, before, exts, raw) matches Some(p) ==> {
            &&& exists|ticket: Seq<u8>| #[trigger] accepted_ticket(keys, ticket) == Ok::<TicketView, TicketError>(
                p.ticket,
            )
            &&& in_lifetime(p.ticket.issued_at_ms, now)
            &&& p.binder == binder(
                p.ticket.psk,
                digest_of(resumption_hash(), before + raw.take(raw.len() - BINDERS_LEN)),
            )
        },
{
}

/// Early data is never taken of a ticket that claims an age more than the allowed
/// skew away from the measured one.
pub proof fn law_fresh_means_recent(p: AcceptedPskView, now: u64)
    ensures
        is_fresh(p, now) ==> in_lifetime(p.ticket.issued_at_ms, now),
        is_fresh(p, now) ==> claimed_age(p) <= TICKET_LIFETIME_MS + MAX_TICKET_AGE_SKEW_MS,
{
}

} // verus!
