//! Session tickets: what a server tells itself about a session, sealed.

use vstd::prelude::*;


pub mod buffer;
pub mod claims;
pub mod context;
pub mod decrypted;
pub mod encrypted;
pub mod keys;
pub mod laws;
pub mod rotator;
pub mod secret;

pub use claims::Claims;
pub use context::Context;
pub use decrypted::Decrypted;
pub use encrypted::Encrypted;
pub use keys::Keys;
pub use rotator::Rotator;
pub use secret::Secret;

verus! {

pub const NONCE_LEN: usize = 12;

pub const TAG_LEN: usize = 16;

pub const PSK_LEN: usize = 32;

pub const MAX_ALPN_LEN: usize = 255;

pub const TRANSPORT_PARAMS_HASH_LEN: usize = 32;

pub const REPLAY_DOMAIN_LEN: usize = 16;

/// Version, transport mode, allowance and its presence, and parameter hash.
pub const LEGACY_CONTEXT_LEN: usize = 39;

/// The same with the replay domain.
pub const CONTEXT_LEN: usize = 55;

/// Key, age mask, time of issue and suite.
pub const FIELDS_BEFORE_CONTEXT_LEN: usize = 46;

pub const LEGACY_FIXED_PLAINTEXT_LEN: usize = 86;

pub const FIXED_PLAINTEXT_LEN: usize = 102;

pub const MAX_PLAINTEXT_LEN: usize = 357;

pub const MAX_CIPHERTEXT_LEN: usize = 373;

/// How long a ticket may be.
pub const MAX_LEN: usize = 385;

/// Why a ticket was not made or not opened.
#[derive(Debug, Clone, Copy, PartialEq, Eq, Structural)]
pub enum Error {
    BadFormat,
    BadAuth,
    BadKey,
}

} // verus!
