//! Hashing, key derivation, key exchange, signatures and session tickets.

pub mod aead;
pub mod hash;
pub mod kdf;
pub mod kx;
pub mod laws;
pub mod material;
pub mod points;
pub mod rng;
pub mod schedule;
pub mod sig;
pub mod ticket;
