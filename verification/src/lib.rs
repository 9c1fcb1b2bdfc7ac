//! A sans-I/O TLS 1.3 library: it holds the protocol's state and rules, and hands
//! bytes and keys to whoever owns the sockets.

use vstd::prelude::*;
use vstd::std_specs::cmp::PartialEqSpecImpl;
use vstd::std_specs::convert::FromSpecImpl;

pub mod alert;
pub mod codec;
pub mod crypto;
pub mod extension;
pub mod handshake;
pub mod hostname;
pub mod identity;
pub mod peer;
pub mod proto;
pub mod psk;
pub mod record;
pub mod server;
pub mod ticket;
pub mod transport;
pub mod wire;

use crate::alert::{Alert, AlertDescription, AlertLevel};
use crate::codec::{bytes_eq, DecodeError, EncodeError};
use crate::crypto::hash::Digest;
use crate::crypto::kdf::HkdfError;
use crate::identity::cert::Error as CertError;
use crate::identity::chain::Error as ChainError;

verus! {

/// Per-connection wall clock, milliseconds since the UNIX epoch. Any `Fn() -> u64`
/// is a `Clock`: `Server::new(config, || now_ms())`.
pub trait Clock {
    /// Whether the clock can be read.
    open spec fn ready(&self) -> bool {
        true
    }

    /// Milliseconds.
    fn now_ms(&self) -> u64
        requires
            self.ready(),
    ;

    /// Whole seconds, of a time that the clock gave in milliseconds.
    fn now_secs(&self) -> (r: u64)
        requires
            self.ready(),
        default_ensures
            exists|ms: u64| #[trigger] call_ensures(Self::now_ms, (self,), ms) && r == ms / 1000,
    {
        self.now_ms() / 1000
    }
}

impl<F: Fn() -> u64> Clock for F {
    open spec fn ready(&self) -> bool {
        call_requires(*self, ())
    }

    fn now_ms(&self) -> (r: u64)
        ensures
            call_ensures(*self, (), r),
    {
        self()
    }
}

/// Which keys protect a message.
#[derive(Debug, Clone, Copy, PartialEq, Eq, Structural)]
pub enum Epoch {
    Plaintext,
    EarlyData,
    Handshake,
    Application,
}

/// Which way a key is used.
#[derive(Debug, Clone, Copy, PartialEq, Eq, Structural)]
pub enum KeyDirection {
    Read,
    Write,
}

/// What the embedder is to do, in order.
#[derive(Clone)]
pub enum Event {
    Send { epoch: Epoch, data: Vec<u8> },
    KeysReady { epoch: Epoch, read_secret: Digest, write_secret: Digest },
    PeerExtension { ty: u16, data: Vec<u8> },
    KeyUpdate { direction: KeyDirection, secret: Digest },
    NewSessionTicket {
        ticket_lifetime: u32,
        ticket_age_add: u32,
        ticket_nonce: Vec<u8>,
        ticket: Vec<u8>,
        max_early_data: Option<u32>,
    },
    ResumptionSecret { psk: [u8; 32] },
    ZeroRttKeysReady { secret: Digest },
    EarlyDataAccepted,
    EarlyDataRejected,
    Done,
}

/// What an event says, with byte strings for buffers and secrets.
#[verifier::ext_equal]
pub enum EventView {
    Send { epoch: Epoch, data: Seq<u8> },
    KeysReady { epoch: Epoch, read_secret: Seq<u8>, write_secret: Seq<u8> },
    PeerExtension { ty: u16, data: Seq<u8> },
    KeyUpdate { direction: KeyDirection, secret: Seq<u8> },
    NewSessionTicket {
        ticket_lifetime: u32,
        ticket_age_add: u32,
        ticket_nonce: Seq<u8>,
        ticket: Seq<u8>,
        max_early_data: Option<u32>,
    },
    ResumptionSecret { psk: Seq<u8> },
    ZeroRttKeysReady { secret: Seq<u8> },
    EarlyDataAccepted,
    EarlyDataRejected,
    Done,
}

impl View for Event {
    type V = EventView;

    open spec fn view(&self) -> EventView {
        match self {
            Event::Send { epoch, data } => EventView::Send { epoch: *epoch, data: data@ },
            Event::KeysReady { epoch, read_secret, write_secret } => EventView::KeysReady {
                epoch: *epoch,
                read_secret: read_secret@,
                write_secret: write_secret@,
            },
            Event::PeerExtension { ty, data } => EventView::PeerExtension { ty: *ty, data: data@ },
            Event::KeyUpdate { direction, secret } => EventView::KeyUpdate {
                direction: *direction,
                secret: secret@,
            },
            Event::NewSessionTicket {
                ticket_lifetime,
                ticket_age_add,
                ticket_nonce,
                ticket,
                max_early_data,
            } => EventView::NewSessionTicket {
                ticket_lifetime: *ticket_lifetime,
                ticket_age_add: *ticket_age_add,
                ticket_nonce: ticket_nonce@,
                ticket: ticket@,
                max_early_data: *max_early_data,
            },
            Event::ResumptionSecret { psk } => EventView::ResumptionSecret { psk: psk@ },
            Event::ZeroRttKeysReady { secret } => EventView::ZeroRttKeysReady { secret: secret@ },
            Event::EarlyDataAccepted => EventView::EarlyDataAccepted,
            Event::EarlyDataRejected => EventView::EarlyDataRejected,
            Event::Done => EventView::Done,
        }
    }
}

impl PartialEq for Event {
    fn eq(&self, other: &Self) -> (r: bool) {
        match (self, other) {
            (Event::Send { epoch: e, data: d }, Event::Send { epoch, data }) => *e == *epoch && bytes_eq(
                d.as_slice(),
                data.as_slice(),
            ),
            (
                Event::KeysReady { epoch: e, read_secret: r, write_secret: w },
                Event::KeysReady { epoch, read_secret, write_secret },
            ) => *e == *epoch && *r == *read_secret && *w == *write_secret,
            (Event::PeerExtension { ty: t, data: d }, Event::PeerExtension { ty, data }) => *t == *ty
                && bytes_eq(d.as_slice(), data.as_slice()),
            (Event::KeyUpdate { direction: d, secret: s }, Event::KeyUpdate { direction, secret }) => *d
                == *direction && *s == *secret,
            (
                Event::NewSessionTicket {
                    ticket_lifetime: l,
                    ticket_age_add: a,
                    ticket_nonce: n,
                    ticket: t,
                    max_early_data: m,
                },
                Event::NewSessionTicket {
                    ticket_lifetime,
                    ticket_age_add,
                    ticket_nonce,
                    ticket,
                    max_early_data,
                },
            ) => *l == *ticket_lifetime && *a == *ticket_age_add && bytes_eq(
                n.as_slice(),
                ticket_nonce.as_slice(),
            ) && bytes_eq(t.as_slice(), ticket.as_slice()) && same_limit(*m, *max_early_data),
            (Event::ResumptionSecret { psk: p }, Event::ResumptionSecret { psk }) => bytes_eq(p, psk),
            (Event::ZeroRttKeysReady { secret: s }, Event::ZeroRttKeysReady { secret }) => *s == *secret,
            (Event::EarlyDataAccepted, Event::EarlyDataAccepted) => true,
            (Event::EarlyDataRejected, Event::EarlyDataRejected) => true,
            (Event::Done, Event::Done) => true,
            _ => false,
        }
    }
}

impl PartialEqSpecImpl for Event {
    open spec fn obeys_eq_spec() -> bool {
        true
    }

    open spec fn eq_spec(&self, other: &Self) -> bool {
        self@ == other@
    }
}

impl Eq for Event {

}

fn same_limit(a: Option<u32>, b: Option<u32>) -> (r: bool)
    ensures
        r == (a == b),
{
    match (a, b) {
        (Some(x), Some(y)) => x == y,
        (None, None) => true,
        _ => false,
    }
}

/// What a list of events says.
pub open spec fn events_view(l: Seq<Event>) -> Seq<EventView> {
    l.map_values(|e: Event| e@)
}

/// What of an event may stand in a log: no secret, and of a message only its length.
#[derive(Debug, Clone, Copy, PartialEq, Eq, Structural)]
pub enum Loggable {
    Send { epoch: Epoch, data_len: usize },
    KeysReady { epoch: Epoch },
    PeerExtension { ty: u16, data_len: usize },
    KeyUpdate { direction: KeyDirection },
    NewSessionTicket { ticket_lifetime: u32, ticket_age_add: u32, max_early_data: Option<u32> },
    ResumptionSecret,
    ZeroRttKeysReady,
    EarlyDataAccepted,
    EarlyDataRejected,
    Done,
}

/// What of an event may stand in a log.
pub open spec fn loggable(e: EventView) -> Loggable {
    match e {
        EventView::Send { epoch, data } => Loggable::Send { epoch, data_len: data.len() as usize },
        EventView::KeysReady { epoch, .. } => Loggable::KeysReady { epoch },
        EventView::PeerExtension { ty, data } => Loggable::PeerExtension {
            ty,
            data_len: data.len() as usize,
        },
        EventView::KeyUpdate { direction, .. } => Loggable::KeyUpdate { direction },
        EventView::NewSessionTicket { ticket_lifetime, ticket_age_add, max_early_data, .. } => {
            Loggable::NewSessionTicket { ticket_lifetime, ticket_age_add, max_early_data }
        },
        EventView::ResumptionSecret { .. } => Loggable::ResumptionSecret,
        EventView::ZeroRttKeysReady { .. } => Loggable::ZeroRttKeysReady,
        EventView::EarlyDataAccepted => Loggable::EarlyDataAccepted,
        EventView::EarlyDataRejected => Loggable::EarlyDataRejected,
        EventView::Done => Loggable::Done,
    }
}

/// An event with its secrets replaced by others.
pub open spec fn with_secrets(e: EventView, read: Seq<u8>, write: Seq<u8>) -> EventView {
    match e {
        EventView::KeysReady { epoch, .. } => EventView::KeysReady {
            epoch,
            read_secret: read,
            write_secret: write,
        },
        EventView::KeyUpdate { direction, .. } => EventView::KeyUpdate { direction, secret: read },
        EventView::NewSessionTicket {
            ticket_lifetime,
            ticket_age_add,
            max_early_data,
            ..
        } => EventView::NewSessionTicket {
            ticket_lifetime,
            ticket_age_add,
            ticket_nonce: read,
            ticket: write,
            max_early_data,
        },
        EventView::ResumptionSecret { .. } => EventView::ResumptionSecret { psk: read },
        EventView::ZeroRttKeysReady { .. } => EventView::ZeroRttKeysReady { secret: read },
        _ => e,
    }
}

/// What stands in a log does not depend on any secret.
pub proof fn law_secrets_are_not_logged(e: EventView, read: Seq<u8>, write: Seq<u8>)
    ensures
        loggable(with_secrets(e, read, write)) == loggable(e),
{
}

impl Event {
    /// What of the event may stand in a log.
    pub fn loggable(&self) -> (r: Loggable)
        ensures
            r == loggable(self@),
    {
        match self {
            Event::Send { epoch, data } => Loggable::Send { epoch: *epoch, data_len: data.len() },
            Event::KeysReady { epoch, .. } => Loggable::KeysReady { epoch: *epoch },
            Event::PeerExtension { ty, data } => Loggable::PeerExtension {
                ty: *ty,
                data_len: data.len(),
            },
            Event::KeyUpdate { direction, .. } => Loggable::KeyUpdate { direction: *direction },
            Event::NewSessionTicket { ticket_lifetime, ticket_age_add, max_early_data, .. } => {
                Loggable::NewSessionTicket {
                    ticket_lifetime: *ticket_lifetime,
                    ticket_age_add: *ticket_age_add,
                    max_early_data: *max_early_data,
                }
            },
            Event::ResumptionSecret { .. } => Loggable::ResumptionSecret,
            Event::ZeroRttKeysReady { .. } => Loggable::ZeroRttKeysReady,
            Event::EarlyDataAccepted => Loggable::EarlyDataAccepted,
            Event::EarlyDataRejected => Loggable::EarlyDataRejected,
            Event::Done => Loggable::Done,
        }
    }
}

/// Why a connection fails.
#[derive(Debug, Clone, PartialEq, Eq)]
#[non_exhaustive]
pub enum Error {
    /// Malformed wire encoding: wrong length, truncation (alert `decode_error`).
    Decode,
    /// Well-formed but disallowed value: out-of-range selection, forbidden legacy
    /// field, downgrade sentinel (alert `illegal_parameter`).
    IllegalParameter,
    UnexpectedMessage,
    /// The client sent more 0-RTT early data than the advertised
    /// max_early_data_size, or sent it outside the early-data window
    /// (alert `unexpected_message`).
    EarlyDataLimitExceeded,
    UnsupportedCipherSuite,
    UnsupportedGroup,
    UnsupportedSigScheme,
    BadVersion,
    DowngradeDetected,
    HelloRetryRequest,
    UnsolicitedExtension,
    SigSchemeNotOffered,
    MissingExtension,
    KeyShareNotFound,
    NoApplicationProtocol,
    BadCertificate,
    BadCertificateParse(CertError),
    BadCertificateChain(ChainError),
    NoTrustAnchorForIssuer(Vec<u8>),
    BadCertificateVerify,
    /// Client auth was `Required` but the client sent an empty Certificate
    /// (alert `certificate_required`).
    ClientCertRequired,
    /// The embedder's client-certificate verifier rejected an otherwise valid,
    /// possession-proven client identity (alert `access_denied`).
    AccessDenied,
    BadFinished,
    Kx,
    Sig,
    Spki,
    Rng,
    Encode,
    /// Configuration that cannot authenticate the server or that no handshake could
    /// send, surfaced by `Config::validate` before handshake work begins.
    BadConfig,
    /// An operation requiring a completed handshake was attempted too early
    /// (e.g. exporting keying material before the handshake finishes).
    NotReady,
}

/// What the peer is told about an error.
pub open spec fn alert_for(e: Error) -> AlertDescription {
    match e {
        Error::Decode => AlertDescription::DecodeError,
        Error::IllegalParameter => AlertDescription::IllegalParameter,
        Error::DowngradeDetected => AlertDescription::IllegalParameter,
        Error::SigSchemeNotOffered => AlertDescription::IllegalParameter,
        Error::UnexpectedMessage => AlertDescription::UnexpectedMessage,
        Error::EarlyDataLimitExceeded => AlertDescription::UnexpectedMessage,
        Error::UnsupportedCipherSuite => AlertDescription::HandshakeFailure,
        Error::UnsupportedGroup => AlertDescription::HandshakeFailure,
        Error::UnsupportedSigScheme => AlertDescription::HandshakeFailure,
        Error::BadVersion => AlertDescription::ProtocolVersion,
        Error::HelloRetryRequest => AlertDescription::InternalError,
        Error::UnsolicitedExtension => AlertDescription::UnsupportedExtension,
        Error::MissingExtension => AlertDescription::MissingExtension,
        Error::KeyShareNotFound => AlertDescription::HandshakeFailure,
        Error::NoApplicationProtocol => AlertDescription::NoApplicationProtocol,
        Error::BadCertificate => AlertDescription::BadCertificate,
        Error::BadCertificateParse(_) => AlertDescription::BadCertificate,
        Error::BadCertificateChain(c) => if c == ChainError::Expired || c == ChainError::NotYetValid {
            AlertDescription::CertificateExpired
        } else if c == ChainError::NoTrustAnchor {
            AlertDescription::UnknownCa
        } else {
            AlertDescription::BadCertificate
        },
        Error::NoTrustAnchorForIssuer(_) => AlertDescription::UnknownCa,
        Error::ClientCertRequired => AlertDescription::CertificateRequired,
        Error::AccessDenied => AlertDescription::AccessDenied,
        Error::BadCertificateVerify => AlertDescription::DecryptError,
        Error::BadFinished => AlertDescription::DecryptError,
        Error::Kx => AlertDescription::IllegalParameter,
        Error::Sig => AlertDescription::InternalError,
        Error::Spki => AlertDescription::InternalError,
        Error::Rng => AlertDescription::InternalError,
        Error::Encode => AlertDescription::InternalError,
        Error::BadConfig => AlertDescription::InternalError,
        Error::NotReady => AlertDescription::InternalError,
    }
}

impl Error {
    /// The fatal TLS alert to send the peer for this error.
    pub fn alert(&self) -> (r: Alert)
        ensures
            r == (Alert { level: AlertLevel::Fatal, description: alert_for(*self) }),
    {
        let d = match self {
            Error::Decode => AlertDescription::DecodeError,
            Error::IllegalParameter | Error::DowngradeDetected | Error::SigSchemeNotOffered => {
                AlertDescription::IllegalParameter
            },
            Error::UnexpectedMessage | Error::EarlyDataLimitExceeded => {
                AlertDescription::UnexpectedMessage
            },
            Error::UnsupportedCipherSuite | Error::UnsupportedGroup | Error::UnsupportedSigScheme => {
                AlertDescription::HandshakeFailure
            },
            Error::BadVersion => AlertDescription::ProtocolVersion,
            Error::HelloRetryRequest => AlertDescription::InternalError,
            Error::UnsolicitedExtension => AlertDescription::UnsupportedExtension,
            Error::MissingExtension => AlertDescription::MissingExtension,
            Error::KeyShareNotFound => AlertDescription::HandshakeFailure,
            Error::NoApplicationProtocol => AlertDescription::NoApplicationProtocol,
            Error::BadCertificate | Error::BadCertificateParse(_) => AlertDescription::BadCertificate,
            Error::BadCertificateChain(ChainError::Expired) => AlertDescription::CertificateExpired,
            Error::BadCertificateChain(ChainError::NotYetValid) => {
                AlertDescription::CertificateExpired
            },
            Error::NoTrustAnchorForIssuer(_) => AlertDescription::UnknownCa,
            Error::BadCertificateChain(ChainError::NoTrustAnchor) => AlertDescription::UnknownCa,
            Error::BadCertificateChain(_) => AlertDescription::BadCertificate,
            Error::ClientCertRequired => AlertDescription::CertificateRequired,
            Error::AccessDenied => AlertDescription::AccessDenied,
            Error::BadCertificateVerify | Error::BadFinished => AlertDescription::DecryptError,
            Error::Kx => AlertDescription::IllegalParameter,
            Error::Sig
            | Error::Spki
            | Error::Rng
            | Error::Encode
            | Error::BadConfig
            | Error::NotReady => AlertDescription::InternalError,
        };
        Alert::fatal(d)
    }
}

impl From<DecodeError> for Error {
    fn from(_e: DecodeError) -> (r: Self) {
        Error::Decode
    }
}

impl FromSpecImpl<DecodeError> for Error {
    open spec fn obeys_from_spec() -> bool {
        true
    }

    open spec fn from_spec(e: DecodeError) -> Self {
        Error::Decode
    }
}

impl From<EncodeError> for Error {
    fn from(_e: EncodeError) -> (r: Self) {
        Error::Encode
    }
}

impl FromSpecImpl<EncodeError> for Error {
    open spec fn obeys_from_spec() -> bool {
        true
    }

    open spec fn from_spec(e: EncodeError) -> Self {
        Error::Encode
    }
}

impl From<HkdfError> for Error {
    fn from(_e: HkdfError) -> (r: Self) {
        Error::Encode
    }
}

impl FromSpecImpl<HkdfError> for Error {
    open spec fn obeys_from_spec() -> bool {
        true
    }

    open spec fn from_spec(e: HkdfError) -> Self {
        Error::Encode
    }
}

} // verus!
