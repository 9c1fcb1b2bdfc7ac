//! What carries a connection.

use vstd::prelude::*;

verus! {

/// Whether handshake bytes travel in TLS records or in QUIC frames.
#[derive(Debug, Clone, Copy, PartialEq, Eq, Structural)]
pub enum Mode {
    Tls,
    Quic,
}

} // verus!
