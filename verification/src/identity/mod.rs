//! Peer identities: certificates, raw public keys, names and validity times.

use vstd::prelude::*;

pub mod addresses;
pub mod asn1;
pub mod cert;
pub mod chain;
pub mod hostname;
pub mod laws;
pub mod leafkey;
pub mod spki;
pub mod time;

pub use hostname::Hostname;
pub use time::UnixTime;

verus! {

/// A certificate representation selected by TLS certificate-type negotiation.
#[derive(Debug, Clone, Copy, PartialEq, Eq, Structural)]
pub enum CertificateType {
    X509,
    RawPublicKey,
}

/// A certificate type's code point.
pub open spec fn certificate_type_id(t: CertificateType) -> u8 {
    match t {
        CertificateType::X509 => 0,
        CertificateType::RawPublicKey => 2,
    }
}

impl CertificateType {
    /// The code point.
    pub fn wire_id(self) -> (r: u8)
        ensures
            r == certificate_type_id(self),
    {
        match self {
            CertificateType::X509 => 0,
            CertificateType::RawPublicKey => 2,
        }
    }

    /// The certificate type with code point `id`.
    pub fn from_wire_id(id: u8) -> (r: Option<Self>)
        ensures
            r matches Some(t) ==> certificate_type_id(t) == id,
            r is None ==> forall|t: CertificateType| #[trigger] certificate_type_id(t) != id,
    {
        match id {
            0 => Some(CertificateType::X509),
            2 => Some(CertificateType::RawPublicKey),
            _ => None,
        }
    }
}

} // verus!
