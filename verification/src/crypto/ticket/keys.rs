//! The keys of two generations.

use vstd::prelude::*;

use crate::codec::bytes_eq;
use crate::crypto::material::ResumptionPsk;
use crate::crypto::ticket::claims::{claims_bytes, tls_claims, ClaimsView};
use crate::crypto::ticket::secret::{is_ticket_of, ticket_claims, ticket_key};
use crate::crypto::ticket::{Claims, Context, Decrypted, Encrypted, Error, Secret, MAX_ALPN_LEN, PSK_LEN};
use crate::record::CipherSuite;

verus! {

/// The key that seals and opens, and the key of the generation before, which
/// opens.
#[verifier::ext_equal]
pub struct KeysView {
    pub current: Seq<u8>,
    pub previous: Option<Seq<u8>>,
}

/// What a ticket says, where it opens under one of the keys.
pub open spec fn keys_claims(k: KeysView, ticket: Seq<u8>) -> Result<ClaimsView, Error> {
    match ticket_claims(k.current, ticket) {
        Ok(c) => Ok(c),
        Err(e) => match k.previous {
            Some(p) => ticket_claims(p, ticket),
            None => Err(e),
        },
    }
}

/// A ticket that opened under a key still opens when it is the key of the
/// generation before, unless the new key opens it too.
pub proof fn law_one_rotation_accepted(old_keys: KeysView, new_key: Seq<u8>, ticket: Seq<u8>)
    requires
        ticket_claims(old_keys.current, ticket) is Ok,
    ensures
        keys_claims(KeysView { current: new_key, previous: Some(old_keys.current) }, ticket) is Ok,
        ticket_claims(new_key, ticket) is Err ==> keys_claims(
            KeysView { current: new_key, previous: Some(old_keys.current) },
            ticket,
        ) == ticket_claims(old_keys.current, ticket),
{
}

/// The keys that tickets are sealed and opened under.
pub struct Keys {
    current: Secret,
    previous: Option<Secret>,
}

impl View for Keys {
    type V = KeysView;

    closed spec fn view(&self) -> KeysView {
        KeysView {
            current: self.current@,
            previous: match self.previous {
                Some(p) => Some(p@),
                None => None,
            },
        }
    }
}

/// What resuming a session needs of a ticket.
pub struct OpenedResumption {
    pub psk: ResumptionPsk,
    pub age_add: u32,
    pub issued_at_ms: u64,
    pub suite: CipherSuite,
    pub context: Context,
    pub alpn_matches: bool,
}

impl Keys {
    /// One key.
    pub fn single(secret: [u8; 32]) -> (r: Result<Self, Error>)
        ensures
            r is Ok,
            r->Ok_0@ == (KeysView { current: ticket_key(secret@), previous: None }),
    {
        Self::with_previous(secret, None)
    }

    /// A key and perhaps the one before.
    pub fn with_previous(current: [u8; 32], previous: Option<[u8; 32]>) -> (r: Result<Self, Error>)
        ensures
            r is Ok,
            r->Ok_0@.current == ticket_key(current@),
            match previous {
                Some(p) => r->Ok_0@.previous == Some(ticket_key(p@)),
                None => r->Ok_0@.previous is None,
            },
    {
        let current = Secret::new(current)?;
        let previous = match previous {
            Some(p) => {
                let s = Secret::new(p)?;
                Some(s)
            },
            None => None,
        };
        Ok(Self { current, previous })
    }

    /// Keys that were derived before.
    pub(crate) fn of(current: Secret, previous: Option<Secret>) -> (r: Self)
        ensures
            r@.current == current@,
            match previous {
                Some(p) => r@.previous == Some(p@),
                None => r@.previous is None,
            },
    {
        Self { current, previous }
    }

    /// Seals claims of a TLS server without early data.
    pub fn encrypt(
        &self,
        psk: &[u8; PSK_LEN],
        age_add: u32,
        issued_at_ms: u64,
        suite: CipherSuite,
        alpn: &[u8],
    ) -> (r: Result<Encrypted, Error>)
        ensures
            alpn@.len() > MAX_ALPN_LEN ==> r is Err && r->Err_0 == Error::BadFormat,
            alpn@.len() <= MAX_ALPN_LEN ==> r is Ok || r->Err_0 == Error::BadKey,
            r is Ok ==> {
                &&& ticket_claims(self@.current, r->Ok_0@) == Ok::<ClaimsView, Error>(
                    tls_claims(psk@, age_add, issued_at_ms, suite, alpn@),
                )
                &&& keys_claims(self@, r->Ok_0@) == ticket_claims(self@.current, r->Ok_0@)
                &&& r->Ok_0@.len() == 130 + alpn@.len()
            },
    {
        self.current.encrypt(psk, age_add, issued_at_ms, suite, alpn)
    }

    /// Seals claims under the current key.
    pub fn encrypt_claims(&self, claims: Claims<'_>) -> (r: Result<Encrypted, Error>)
        ensures
            claims@.alpn.len() > MAX_ALPN_LEN ==> r is Err && r->Err_0 == Error::BadFormat,
            match claims_bytes(claims@) {
                Ok(_) => r is Ok || r->Err_0 == Error::BadKey,
                Err(e) => r is Err && (r->Err_0 == e || r->Err_0 == Error::BadKey),
            },
            r is Ok ==> {
                &&& keys_claims(self@, r->Ok_0@) == Ok::<ClaimsView, Error>(claims@)
                &&& ticket_claims(self@.current, r->Ok_0@) == Ok::<ClaimsView, Error>(claims@)
                &&& r->Ok_0@.len() == 130 + claims@.alpn.len()
                &&& is_ticket_of(self@.current, r->Ok_0@, claims_bytes(claims@)->Ok_0)
            },
    {
        self.current.encrypt_claims(claims)
    }

    /// Opens a ticket under the current key or the one before.
    pub fn decrypt(&self, encrypted: &[u8]) -> (r: Result<Decrypted, Error>)
        ensures
            match keys_claims(self@, encrypted@) {
                Ok(c) => r is Ok && r->Ok_0@ == c,
                Err(e) => r is Err && r->Err_0 == e,
            },
    {
        match self.current.decrypt(encrypted) {
            Ok(v) => Ok(v),
            Err(e) => match &self.previous {
                Some(p) => p.decrypt(encrypted),
                None => Err(e),
            },
        }
    }

    /// Opens a ticket for resumption, and tells whether it was issued for an
    /// application protocol.
    pub fn decrypt_resumption(&self, encrypted: &[u8], selected_alpn: &[u8]) -> (r: Result<
        OpenedResumption,
        Error,
    >)
        ensures
            match keys_claims(self@, encrypted@) {
                Ok(c) => r is Ok && {
                    let o = r->Ok_0;
                    &&& o.psk@ == c.psk
                    &&& o.age_add == c.age_add
                    &&& o.issued_at_ms == c.issued_at_ms
                    &&& o.suite == c.suite
                    &&& o.context@ == c.context
                    &&& o.alpn_matches == (c.alpn == selected_alpn@)
                },
                Err(e) => r is Err && r->Err_0 == e,
            },
    {
        let d = self.decrypt(encrypted)?;
        let alpn_matches = bytes_eq(d.alpn(), selected_alpn);
        Ok(
            OpenedResumption {
                psk: d.psk,
                age_add: d.age_add,
                issued_at_ms: d.issued_at_ms,
                suite: d.suite,
                context: d.context,
                alpn_matches,
            },
        )
    }
}

} // verus!
