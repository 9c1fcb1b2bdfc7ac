//! Byte lists of a fixed capacity that tickets are put together in.

use arrayvec::ArrayVec;
use o3::collections::fixed::array::CopyInline;
use vstd::prelude::*;

verus! {

/// The bytes that a plaintext buffer holds.
pub uninterp spec fn plain_bytes(v: CopyInline<u8, 357>) -> Seq<u8>;

/// `CopyInline::new`: an empty buffer.
#[verifier::external_body]
pub(crate) fn new_plain() -> (r: CopyInline<u8, 357>)
    ensures
        plain_bytes(r) == Seq::<u8>::empty(),
{
    CopyInline::new()
}

/// `CopyInline::try_extend_from_slice`: appends all of `s` where the buffer has
/// room for it, and otherwise leaves it as it is.
#[verifier::external_body]
pub(crate) fn extend_plain(v: &mut CopyInline<u8, 357>, s: &[u8]) -> (r: bool)
    ensures
        r == (plain_bytes(*old(v)).len() + s@.len() <= 357),
        r ==> plain_bytes(*final(v)) == plain_bytes(*old(v)) + s@,
        !r ==> *final(v) == *old(v),
{
    v.try_extend_from_slice(s).is_ok()
}

/// `CopyInline::as_slice`: the bytes in order.
#[verifier::external_body]
pub(crate) fn plain_slice(v: &CopyInline<u8, 357>) -> (r: &[u8])
    ensures
        r@ == plain_bytes(*v),
        r@.len() <= 357,
{
    v.as_slice()
}

/// The bytes of an application protocol that was read out of a ticket.
pub uninterp spec fn protocol_bytes(v: CopyInline<u8, 255>) -> Seq<u8>;

/// `CopyInline::try_from_slice`: a list of the bytes, where they are no more than
/// its capacity.
#[verifier::external_body]
pub(crate) fn protocol_from(s: &[u8]) -> (r: Option<CopyInline<u8, 255>>)
    ensures
        s@.len() <= 255 ==> r is Some && protocol_bytes(r->0) == s@,
        s@.len() > 255 ==> r is None,
{
    CopyInline::try_from_slice(s).ok()
}

/// `CopyInline::as_slice`: the bytes in order.
#[verifier::external_body]
pub(crate) fn protocol_slice(v: &CopyInline<u8, 255>) -> (r: &[u8])
    ensures
        r@ == protocol_bytes(*v),
{
    v.as_slice()
}

/// The bytes of a sealed ticket.
pub uninterp spec fn ticket_bytes(v: ArrayVec<u8, 385>) -> Seq<u8>;

/// `ArrayVec::new`: an empty list.
#[verifier::external_body]
pub(crate) fn new_ticket() -> (r: ArrayVec<u8, 385>)
    ensures
        ticket_bytes(r) == Seq::<u8>::empty(),
{
    ArrayVec::new()
}

/// `ArrayVec::try_extend_from_slice`: appends all of `s` where the list has room
/// for it, and otherwise leaves it as it is.
#[verifier::external_body]
pub(crate) fn extend_ticket(v: &mut ArrayVec<u8, 385>, s: &[u8]) -> (r: bool)
    ensures
        r == (ticket_bytes(*old(v)).len() + s@.len() <= 385),
        r ==> ticket_bytes(*final(v)) == ticket_bytes(*old(v)) + s@,
        !r ==> *final(v) == *old(v),
{
    v.try_extend_from_slice(s).is_ok()
}

/// `ArrayVec::as_slice`: the bytes in order.
#[verifier::external_body]
pub(crate) fn ticket_slice(v: &ArrayVec<u8, 385>) -> (r: &[u8])
    ensures
        r@ == ticket_bytes(*v),
        r@.len() <= 385,
{
    v.as_slice()
}

} // verus!
