//! What was read out of a ticket.

use o3::collections::fixed::array::CopyInline;
use vstd::prelude::*;
use vstd::std_specs::cmp::PartialEqSpecImpl;

use crate::codec::bytes_eq;
use crate::crypto::material::ResumptionPsk;
use crate::crypto::ticket::buffer::{protocol_bytes, protocol_slice};
use crate::crypto::ticket::claims::ClaimsView;
use crate::crypto::ticket::Context;
use crate::record::CipherSuite;

verus! {

/// What was read out of a ticket.
pub struct Decrypted {
    pub psk: ResumptionPsk,
    pub age_add: u32,
    pub issued_at_ms: u64,
    pub suite: CipherSuite,
    pub alpn: CopyInline<u8, 255>,
    pub context: Context,
}

impl View for Decrypted {
    type V = ClaimsView;

    open spec fn view(&self) -> ClaimsView {
        ClaimsView {
            psk: self.psk@,
            age_add: self.age_add,
            issued_at_ms: self.issued_at_ms,
            suite: self.suite,
            alpn: protocol_bytes(self.alpn),
            context: self.context@,
        }
    }
}

impl PartialEq for Decrypted {
    fn eq(&self, other: &Self) -> (r: bool) {
        self.age_add == other.age_add && self.issued_at_ms == other.issued_at_ms && self.suite == other.suite
            && self.psk == other.psk && bytes_eq(self.alpn(), other.alpn()) && self.context == other.context
    }
}

impl PartialEqSpecImpl for Decrypted {
    open spec fn obeys_eq_spec() -> bool {
        true
    }

    open spec fn eq_spec(&self, other: &Self) -> bool {
        self@ == other@
    }
}

impl Eq for Decrypted {

}

impl Decrypted {
    /// The application protocol.
    pub fn alpn(&self) -> (r: &[u8])
        ensures
            r@ == self@.alpn,
    {
        protocol_slice(&self.alpn)
    }
}

} // verus!
