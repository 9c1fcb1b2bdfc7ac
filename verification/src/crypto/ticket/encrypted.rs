//! A sealed ticket.

use arrayvec::ArrayVec;
use vstd::prelude::*;
use vstd::std_specs::cmp::PartialEqSpecImpl;

use crate::codec::bytes_eq;
use crate::crypto::ticket::buffer::{extend_ticket, new_ticket, ticket_bytes, ticket_slice};
use crate::crypto::ticket::MAX_LEN;

verus! {

/// An authenticated, opaque session ticket of a bounded size.
pub struct Encrypted {
    bytes: ArrayVec<u8, 385>,
}

impl View for Encrypted {
    type V = Seq<u8>;

    closed spec fn view(&self) -> Seq<u8> {
        ticket_bytes(self.bytes)
    }
}

impl PartialEq for Encrypted {
    fn eq(&self, other: &Self) -> (r: bool) {
        bytes_eq(self.as_slice(), other.as_slice())
    }
}

impl PartialEqSpecImpl for Encrypted {
    open spec fn obeys_eq_spec() -> bool {
        true
    }

    open spec fn eq_spec(&self, other: &Self) -> bool {
        self@ == other@
    }
}

impl Eq for Encrypted {

}

impl Clone for Encrypted {
    fn clone(&self) -> (r: Self)
        ensures
            r@ == self@,
    {
        let mut bytes = new_ticket();
        let copied = extend_ticket(&mut bytes, self.as_slice());
        assert(Seq::<u8>::empty() + self@ =~= self@);
        Self { bytes }
    }
}

impl Encrypted {
    /// A ticket of two parts, where it is not longer than one may be.
    pub(crate) fn of(nonce: &[u8], sealed: &[u8]) -> (r: Option<Self>)
        ensures
            nonce@.len() + sealed@.len() <= MAX_LEN ==> r is Some && r->0@ == nonce@ + sealed@,
            nonce@.len() + sealed@.len() > MAX_LEN ==> r is None,
    {
        let mut bytes = new_ticket();
        if !extend_ticket(&mut bytes, nonce) || !extend_ticket(&mut bytes, sealed) {
            return None;
        }
        assert(Seq::<u8>::empty() + nonce@ =~= nonce@);
        Some(Self { bytes })
    }

    /// The ticket's bytes.
    pub fn as_slice(&self) -> (r: &[u8])
        ensures
            r@ == self@,
            r@.len() <= MAX_LEN,
    {
        ticket_slice(&self.bytes)
    }

    /// How long the ticket is.
    pub fn len(&self) -> (r: usize)
        ensures
            r == self@.len(),
    {
        self.as_slice().len()
    }

    /// Whether the ticket has no bytes.
    pub fn is_empty(&self) -> (r: bool)
        ensures
            r == (self@.len() == 0),
    {
        self.as_slice().len() == 0
    }
}

} // verus!
