//! Purpose-separated secret values.
//!
//! These types deliberately implement neither `Copy` nor `Clone`, and wipe their
//! storage on drop.

use vstd::prelude::*;
use vstd::std_specs::cmp::PartialEqSpecImpl;

use crate::codec::to_array;
use crate::crypto::hash::{wipe, Algorithm, Digest, LengthError, Secret, MAX_LEN, SHA256_LEN};
use crate::crypto::kdf::{next_traffic_secret, Hkdf};
use crate::handshake::reassemblers::KeyUpdateBudget;
use crate::handshake::MAX_KEY_UPDATES_WITHOUT_APP_DATA;
use crate::record::{suite_hash, CipherSuite};
use crate::Error;

verus! {

/// `subtle`'s `ConstantTimeEq` on byte slices: whether both have the same length
/// and the same bytes.
#[verifier::external_body]
pub(crate) fn ct_eq(a: &[u8], b: &[u8]) -> (r: bool)
    ensures
        r == (a@ == b@),
{
    bool::from(subtle::ConstantTimeEq::ct_eq(a, b))
}

/// A secret that record protection keys of one direction come from.
pub struct TrafficSecret(Secret);

impl View for TrafficSecret {
    type V = Seq<u8>;

    closed spec fn view(&self) -> Seq<u8> {
        self.0@
    }
}

impl TrafficSecret {
    /// Copies a secret of at most the largest hash's length.
    pub fn try_from_slice(bytes: &[u8]) -> (r: Result<Self, LengthError>)
        ensures
            bytes.len() <= MAX_LEN ==> r is Ok && r->Ok_0@ == bytes@,
            bytes.len() > MAX_LEN ==> r is Err && r->Err_0 == (LengthError {
                actual: bytes.len(),
                maximum: MAX_LEN,
            }),
    {
        match Secret::try_from_slice(bytes) {
            Ok(secret) => Ok(Self(secret)),
            Err(e) => Err(e),
        }
    }

    /// The bytes.
    pub fn as_slice(&self) -> (r: &[u8])
        ensures
            r@ == self@,
            r@.len() <= MAX_LEN,
    {
        self.0.as_slice()
    }

    /// Gives a derived secret its purpose.
    pub fn from_secret(secret: Secret) -> (r: Self)
        ensures
            r@ == secret@,
    {
        Self(secret)
    }
}

impl PartialEq for TrafficSecret {
    fn eq(&self, other: &Self) -> (r: bool) {
        ct_eq(self.as_slice(), other.as_slice())
    }
}

impl PartialEqSpecImpl for TrafficSecret {
    open spec fn obeys_eq_spec() -> bool {
        true
    }

    open spec fn eq_spec(&self, other: &Self) -> bool {
        self@ == other@
    }
}

impl Eq for TrafficSecret {

}

/// The key that authenticates a Finished message.
pub struct FinishedKey(Secret);

impl View for FinishedKey {
    type V = Seq<u8>;

    closed spec fn view(&self) -> Seq<u8> {
        self.0@
    }
}

impl FinishedKey {
    /// Copies a secret of at most the largest hash's length.
    pub fn try_from_slice(bytes: &[u8]) -> (r: Result<Self, LengthError>)
        ensures
            bytes.len() <= MAX_LEN ==> r is Ok && r->Ok_0@ == bytes@,
            bytes.len() > MAX_LEN ==> r is Err && r->Err_0 == (LengthError {
                actual: bytes.len(),
                maximum: MAX_LEN,
            }),
    {
        match Secret::try_from_slice(bytes) {
            Ok(secret) => Ok(Self(secret)),
            Err(e) => Err(e),
        }
    }

    /// The bytes.
    pub fn as_slice(&self) -> (r: &[u8])
        ensures
            r@ == self@,
            r@.len() <= MAX_LEN,
    {
        self.0.as_slice()
    }

    /// Gives a derived secret its purpose.
    pub fn from_secret(secret: Secret) -> (r: Self)
        ensures
            r@ == secret@,
    {
        Self(secret)
    }
}

impl PartialEq for FinishedKey {
    fn eq(&self, other: &Self) -> (r: bool) {
        ct_eq(self.as_slice(), other.as_slice())
    }
}

impl PartialEqSpecImpl for FinishedKey {
    open spec fn obeys_eq_spec() -> bool {
        true
    }

    open spec fn eq_spec(&self, other: &Self) -> bool {
        self@ == other@
    }
}

impl Eq for FinishedKey {

}

/// What a Finished message has to say.
pub struct FinishedVerifyData(Secret);

impl View for FinishedVerifyData {
    type V = Seq<u8>;

    closed spec fn view(&self) -> Seq<u8> {
        self.0@
    }
}

impl FinishedVerifyData {
    /// Copies a secret of at most the largest hash's length.
    pub fn try_from_slice(bytes: &[u8]) -> (r: Result<Self, LengthError>)
        ensures
            bytes.len() <= MAX_LEN ==> r is Ok && r->Ok_0@ == bytes@,
            bytes.len() > MAX_LEN ==> r is Err && r->Err_0 == (LengthError {
                actual: bytes.len(),
                maximum: MAX_LEN,
            }),
    {
        match Secret::try_from_slice(bytes) {
            Ok(secret) => Ok(Self(secret)),
            Err(e) => Err(e),
        }
    }

    /// The bytes.
    pub fn as_slice(&self) -> (r: &[u8])
        ensures
            r@ == self@,
            r@.len() <= MAX_LEN,
    {
        self.0.as_slice()
    }

    /// Gives a derived secret its purpose.
    pub fn from_secret(secret: Secret) -> (r: Self)
        ensures
            r@ == secret@,
    {
        Self(secret)
    }

    /// Whether `candidate` is what was expected.
    pub fn ct_eq(&self, candidate: &[u8]) -> (r: bool)
        ensures
            r == (self@ == candidate@),
    {
        ct_eq(self.as_slice(), candidate)
    }
}

impl PartialEq for FinishedVerifyData {
    fn eq(&self, other: &Self) -> (r: bool) {
        ct_eq(self.as_slice(), other.as_slice())
    }
}

impl PartialEqSpecImpl for FinishedVerifyData {
    open spec fn obeys_eq_spec() -> bool {
        true
    }

    open spec fn eq_spec(&self, other: &Self) -> bool {
        self@ == other@
    }
}

impl Eq for FinishedVerifyData {

}

/// The secret that resumption keys come from.
pub struct ResumptionMasterSecret(Secret);

impl View for ResumptionMasterSecret {
    type V = Seq<u8>;

    closed spec fn view(&self) -> Seq<u8> {
        self.0@
    }
}

impl ResumptionMasterSecret {
    /// Copies a secret of at most the largest hash's length.
    pub fn try_from_slice(bytes: &[u8]) -> (r: Result<Self, LengthError>)
        ensures
            bytes.len() <= MAX_LEN ==> r is Ok && r->Ok_0@ == bytes@,
            bytes.len() > MAX_LEN ==> r is Err && r->Err_0 == (LengthError {
                actual: bytes.len(),
                maximum: MAX_LEN,
            }),
    {
        match Secret::try_from_slice(bytes) {
            Ok(secret) => Ok(Self(secret)),
            Err(e) => Err(e),
        }
    }

    /// The bytes.
    pub fn as_slice(&self) -> (r: &[u8])
        ensures
            r@ == self@,
            r@.len() <= MAX_LEN,
    {
        self.0.as_slice()
    }

    /// Gives a derived secret its purpose.
    pub fn from_secret(secret: Secret) -> (r: Self)
        ensures
            r@ == secret@,
    {
        Self(secret)
    }
}

impl PartialEq for ResumptionMasterSecret {
    fn eq(&self, other: &Self) -> (r: bool) {
        ct_eq(self.as_slice(), other.as_slice())
    }
}

impl PartialEqSpecImpl for ResumptionMasterSecret {
    open spec fn obeys_eq_spec() -> bool {
        true
    }

    open spec fn eq_spec(&self, other: &Self) -> bool {
        self@ == other@
    }
}

impl Eq for ResumptionMasterSecret {

}

/// The secret that exported keying material comes from.
pub struct ExporterMasterSecret(Secret);

impl View for ExporterMasterSecret {
    type V = Seq<u8>;

    closed spec fn view(&self) -> Seq<u8> {
        self.0@
    }
}

impl ExporterMasterSecret {
    /// Copies a secret of at most the largest hash's length.
    pub fn try_from_slice(bytes: &[u8]) -> (r: Result<Self, LengthError>)
        ensures
            bytes.len() <= MAX_LEN ==> r is Ok && r->Ok_0@ == bytes@,
            bytes.len() > MAX_LEN ==> r is Err && r->Err_0 == (LengthError {
                actual: bytes.len(),
                maximum: MAX_LEN,
            }),
    {
        match Secret::try_from_slice(bytes) {
            Ok(secret) => Ok(Self(secret)),
            Err(e) => Err(e),
        }
    }

    /// The bytes.
    pub fn as_slice(&self) -> (r: &[u8])
        ensures
            r@ == self@,
            r@.len() <= MAX_LEN,
    {
        self.0.as_slice()
    }

    /// Gives a derived secret its purpose.
    pub fn from_secret(secret: Secret) -> (r: Self)
        ensures
            r@ == secret@,
    {
        Self(secret)
    }
}

impl PartialEq for ExporterMasterSecret {
    fn eq(&self, other: &Self) -> (r: bool) {
        ct_eq(self.as_slice(), other.as_slice())
    }
}

impl PartialEqSpecImpl for ExporterMasterSecret {
    open spec fn obeys_eq_spec() -> bool {
        true
    }

    open spec fn eq_spec(&self, other: &Self) -> bool {
        self@ == other@
    }
}

impl Eq for ExporterMasterSecret {

}

/// A TLS 1.3 resumption PSK, fixed to SHA-256 in this library's ticket profile.
pub struct ResumptionPsk {
    bytes: [u8; SHA256_LEN],
}

impl View for ResumptionPsk {
    type V = Seq<u8>;

    closed spec fn view(&self) -> Seq<u8> {
        self.bytes@
    }
}

impl Drop for ResumptionPsk {
    fn drop(&mut self)
        opens_invariants none
        no_unwind
    {
        let all: &mut [u8] = &mut self.bytes;
        wipe(all);
    }
}

impl ResumptionPsk {
    /// Takes over a key.
    pub fn new(bytes: [u8; SHA256_LEN]) -> (r: Self)
        ensures
            r@ == bytes@,
    {
        let mut given = bytes;
        let value = Self { bytes };
        let rest: &mut [u8] = &mut given;
        wipe(rest);
        value
    }

    /// Copies a key of exactly the SHA-256 length.
    pub fn try_from_slice(bytes: &[u8]) -> (r: Result<Self, LengthError>)
        ensures
            bytes.len() == SHA256_LEN ==> r is Ok && r->Ok_0@ == bytes@,
            bytes.len() != SHA256_LEN ==> r is Err && r->Err_0 == (LengthError {
                actual: bytes.len(),
                maximum: SHA256_LEN,
            }),
    {
        if bytes.len() != SHA256_LEN {
            return Err(LengthError { actual: bytes.len(), maximum: SHA256_LEN });
        }
        Ok(Self { bytes: to_array(bytes) })
    }

    /// The bytes.
    pub fn as_slice(&self) -> (r: &[u8])
        ensures
            r@ == self@,
            r@.len() == SHA256_LEN,
    {
        &self.bytes
    }

    /// The bytes.
    pub fn as_array(&self) -> (r: &[u8; SHA256_LEN])
        ensures
            r@ == self@,
    {
        &self.bytes
    }

    /// A key of zero bytes.
    pub fn zeroed() -> (r: Self)
        ensures
            r@ == Seq::new(SHA256_LEN as nat, |i: int| 0u8),
    {
        let r = Self { bytes: [0u8; SHA256_LEN] };
        assert(r@ =~= Seq::new(SHA256_LEN as nat, |i: int| 0u8));
        r
    }

    /// The bytes, to be changed in place.
    pub fn as_mut_array(&mut self) -> (r: &mut [u8; SHA256_LEN])
        ensures
            r@ == old(self)@,
            final(self)@ == final(r)@,
    {
        &mut self.bytes
    }
}

impl PartialEq for ResumptionPsk {
    fn eq(&self, other: &Self) -> (r: bool) {
        ct_eq(self.as_slice(), other.as_slice())
    }
}

impl PartialEqSpecImpl for ResumptionPsk {
    open spec fn obeys_eq_spec() -> bool {
        true
    }

    open spec fn eq_spec(&self, other: &Self) -> bool {
        self@ == other@
    }
}

impl Eq for ResumptionPsk {

}

/// Who sends under a traffic secret.
#[derive(Debug, Clone, Copy, PartialEq, Eq, Structural)]
pub enum Side {
    Client,
    Server,
}

/// The application traffic secrets of a connection: before the suite is chosen,
/// before the secrets are known, and while they are in use.
pub enum State {
    Empty,
    Selected(CipherSuite),
    Active(Active),
}

/// Traffic secrets in use.
pub struct Active {
    suite: CipherSuite,
    client: TrafficSecret,
    server: TrafficSecret,
    updates: KeyUpdateBudget<MAX_KEY_UPDATES_WITHOUT_APP_DATA>,
}

/// The suite, the secrets, and how many KeyUpdates came without application data.
#[verifier::ext_equal]
pub struct ActiveView {
    pub suite: CipherSuite,
    pub client: Seq<u8>,
    pub server: Seq<u8>,
    pub updates: u32,
}

impl View for Active {
    type V = ActiveView;

    closed spec fn view(&self) -> ActiveView {
        ActiveView {
            suite: self.suite,
            client: self.client@,
            server: self.server@,
            updates: self.updates.used,
        }
    }
}

/// Where the traffic secrets of a connection stand.
#[verifier::ext_equal]
pub enum StateView {
    Empty,
    Selected(CipherSuite),
    Active(ActiveView),
}

impl View for State {
    type V = StateView;

    open spec fn view(&self) -> StateView {
        match self {
            State::Empty => StateView::Empty,
            State::Selected(s) => StateView::Selected(*s),
            State::Active(a) => StateView::Active(a@),
        }
    }
}

/// The suite that was chosen.
pub open spec fn chosen_suite(s: StateView) -> Option<CipherSuite> {
    match s {
        StateView::Empty => None,
        StateView::Selected(x) => Some(x),
        StateView::Active(a) => Some(a.suite),
    }
}

/// The secret that one side sends under.
pub open spec fn side_secret(a: ActiveView, side: Side) -> Seq<u8> {
    match side {
        Side::Client => a.client,
        Side::Server => a.server,
    }
}

/// Secrets of which one side's is the next one.
pub open spec fn advanced(a: ActiveView, side: Side) -> ActiveView {
    let next = next_traffic_secret(suite_hash(a.suite), side_secret(a, side));
    match side {
        Side::Client => ActiveView { client: next, ..a },
        Side::Server => ActiveView { server: next, ..a },
    }
}

/// A suite stays chosen: whatever is asked for later, it is the first one.
pub proof fn law_suite_chosen_once(s: StateView, suite: CipherSuite)
    requires
        chosen_suite(s) is Some,
    ensures
        chosen_suite(after_select(s, suite)) == chosen_suite(s),
{
}

/// Updating one side's secret leaves the other's as it is.
pub proof fn law_sides_independent(a: ActiveView)
    ensures
        side_secret(advanced(a, Side::Client), Side::Server) == side_secret(a, Side::Server),
        side_secret(advanced(a, Side::Server), Side::Client) == side_secret(a, Side::Client),
        advanced(advanced(a, Side::Client), Side::Server) == advanced(advanced(a, Side::Server), Side::Client),
{
}

/// The state after a suite was asked for: it is chosen where none was.
pub open spec fn after_select(s: StateView, suite: CipherSuite) -> StateView {
    match s {
        StateView::Empty => StateView::Selected(suite),
        _ => s,
    }
}

impl State {
    /// Chooses a suite. Another than the one that was chosen before is refused.
    pub fn select(&mut self, suite: CipherSuite) -> (r: Result<(), Error>)
        ensures
            final(self)@ == after_select(old(self)@, suite),
            chosen_suite(final(self)@) == Some(suite) ==> r is Ok,
            chosen_suite(final(self)@) != Some(suite) ==> r is Err && r->Err_0 == Error::IllegalParameter,
    {
        let same = match &*self {
            State::Empty => None,
            State::Selected(s) => Some(*s == suite),
            State::Active(a) => Some(a.suite == suite),
        };
        match same {
            None => {
                *self = State::Selected(suite);
                Ok(())
            },
            Some(true) => Ok(()),
            Some(false) => Err(Error::IllegalParameter),
        }
    }

    /// Takes the secrets of the chosen suite into use.
    pub fn activate(&mut self, client: TrafficSecret, server: TrafficSecret) -> (r: Result<(), Error>)
        ensures
            match old(self)@ {
                StateView::Selected(suite) => r is Ok && final(self)@ == StateView::Active(
                    ActiveView { suite, client: client@, server: server@, updates: 0 },
                ),
                _ => r is Err && r->Err_0 == Error::UnexpectedMessage && final(self)@ == old(self)@,
            },
    {
        let suite = match &*self {
            State::Selected(s) => *s,
            _ => return Err(Error::UnexpectedMessage),
        };
        *self = State::Active(Active { suite, client, server, updates: KeyUpdateBudget::new() });
        Ok(())
    }

    /// The suite that was chosen.
    pub fn suite(&self) -> (r: Option<CipherSuite>)
        ensures
            r == chosen_suite(self@),
    {
        match self {
            State::Empty => None,
            State::Selected(s) => Some(*s),
            State::Active(a) => Some(a.suite),
        }
    }

    /// The hash of the suite that was chosen.
    pub fn algorithm(&self) -> (r: Result<Algorithm, Error>)
        ensures
            match chosen_suite(self@) {
                Some(s) => r is Ok && r->Ok_0 == suite_hash(s),
                None => r is Err && r->Err_0 == Error::UnexpectedMessage,
            },
    {
        match self.suite() {
            Some(s) => Ok(s.hash_alg()),
            None => Err(Error::UnexpectedMessage),
        }
    }

    /// The secret that one side sends under.
    pub fn secret(&self, side: Side) -> (r: Result<&TrafficSecret, Error>)
        ensures
            match self@ {
                StateView::Active(a) => r is Ok && r->Ok_0@ == side_secret(a, side),
                _ => r is Err && r->Err_0 == Error::UnexpectedMessage,
            },
    {
        match self {
            State::Active(a) => Ok(
                match side {
                    Side::Client => &a.client,
                    Side::Server => &a.server,
                },
            ),
            _ => Err(Error::UnexpectedMessage),
        }
    }

    /// Replaces one side's secret by the next one.
    pub fn advance(&mut self, side: Side) -> (r: Result<(), Error>)
        ensures
            match old(self)@ {
                StateView::Active(a) => r is Ok && final(self)@ == StateView::Active(advanced(a, side)),
                _ => r is Err && r->Err_0 == Error::UnexpectedMessage && final(self)@ == old(self)@,
            },
    {
        match self {
            State::Active(a) => {
                let previous = match side {
                    Side::Client => Digest::from_slice(a.client.as_slice()),
                    Side::Server => Digest::from_slice(a.server.as_slice()),
                };
                let next = match Hkdf::new(a.suite.hash_alg()).traffic_update(&previous) {
                    Ok(s) => TrafficSecret::from_secret(s),
                    Err(e) => return Err(Error::from(e)),
                };
                match side {
                    Side::Client => a.client = next,
                    Side::Server => a.server = next,
                }
                Ok(())
            },
            _ => Err(Error::UnexpectedMessage),
        }
    }

    /// Takes a KeyUpdate off the allowance, where any is left.
    pub fn consume_update(&mut self) -> (r: bool)
        ensures
            match old(self)@ {
                StateView::Active(a) => {
                    &&& r == (a.updates < MAX_KEY_UPDATES_WITHOUT_APP_DATA)
                    &&& final(self)@ == StateView::Active(
                        ActiveView { updates: if r { (a.updates + 1) as u32 } else { a.updates }, ..a },
                    )
                },
                _ => !r && final(self)@ == old(self)@,
            },
    {
        match self {
            State::Active(a) => a.updates.consume(),
            _ => false,
        }
    }

    /// Makes the allowance whole again.
    pub fn reset_updates(&mut self)
        ensures
            final(self)@ == match old(self)@ {
                StateView::Active(a) => StateView::Active(ActiveView { updates: 0, ..a }),
                s => s,
            },
    {
        match self {
            State::Active(a) => a.updates.reset(),
            _ => {},
        }
    }

    /// Forgets the suite and the secrets.
    pub fn clear(&mut self)
        ensures
            final(self)@ == StateView::Empty,
    {
        *self = State::Empty;
    }
}

impl Default for State {
    fn default() -> (r: Self)
        ensures
            r@ == StateView::Empty,
    {
        State::Empty
    }
}

} // verus!
