//! Who owns a client's half of a key exchange.

use vstd::prelude::*;

use crate::crypto::kx::{
    agreed_secret, is_client_share, secret_len, EphemeralKeyView, Error, HybridWorkspace, KexGroup,
    SharedSecret,
};

verus! {

/// Client key-exchange ownership strategy: at most one half of an exchange is
/// pending, and agreeing uses it up.
pub trait Initiator {
    /// What is pending.
    spec fn pending(&self) -> Option<EphemeralKeyView>;

    /// Starts an exchange in `group`, in place of any that is pending, and
    /// returns the share to send.
    fn generate(&mut self, group: KexGroup) -> (r: Result<Vec<u8>, Error>)
        ensures
            match r {
                Ok(share) => final(self).pending() matches Some(k) && k.group == group && k.share
                    == share@ && is_client_share(k),
                Err(e) => final(self).pending() is None && e == Error::Generate,
            },
    ;

    /// The group of the pending exchange.
    fn pending_group(&self) -> (r: Option<KexGroup>)
        ensures
            r == match self.pending() {
                Some(k) => Some(k.group),
                None => None,
            },
    ;

    /// Finishes the pending exchange.
    fn agree(&mut self, server_share: &[u8]) -> (r: Result<SharedSecret, Error>)
        ensures
            final(self).pending() is None,
            old(self).pending() is None ==> r is Err && r->Err_0 == Error::Generate,
            old(self).pending() matches Some(k) ==> match agreed_secret(k, server_share@) {
                Some(s) => r is Ok && r->Ok_0@ == s && s.len() == secret_len(k.group),
                None => r is Err && r->Err_0 == Error::InvalidPubkey,
            },
    ;

    /// Gives up the pending exchange.
    fn clear(&mut self)
        ensures
            final(self).pending() is None,
    ;
}

/// Key ownership used by the ordinary client profile.
pub struct Owned {
    held: HybridWorkspace,
}

impl Owned {
    /// Nothing pending.
    pub fn new() -> (r: Self)
        ensures
            r.pending() is None,
    {
        Self { held: HybridWorkspace::new() }
    }
}

impl Initiator for Owned {
    closed spec fn pending(&self) -> Option<EphemeralKeyView> {
        self.held@
    }

    fn generate(&mut self, group: KexGroup) -> (r: Result<Vec<u8>, Error>) {
        self.held.generate(group)
    }

    fn pending_group(&self) -> (r: Option<KexGroup>) {
        self.held.pending_group()
    }

    fn agree(&mut self, server_share: &[u8]) -> (r: Result<SharedSecret, Error>) {
        self.held.agree(server_share)
    }

    fn clear(&mut self) {
        self.held.clear();
    }
}

/// Key ownership borrowing one caller-owned workspace for its full connection
/// lifetime.
pub struct Workspace<'workspace> {
    workspace: &'workspace mut HybridWorkspace,
}

impl<'workspace> Workspace<'workspace> {
    /// Borrows a workspace and forgets what it holds.
    pub fn new(workspace: &'workspace mut HybridWorkspace) -> (r: Self)
        ensures
            r.pending() is None,
    {
        workspace.clear();
        Self { workspace }
    }
}

impl<'workspace> Initiator for Workspace<'workspace> {
    closed spec fn pending(&self) -> Option<EphemeralKeyView> {
        self.workspace@
    }

    fn generate(&mut self, group: KexGroup) -> (r: Result<Vec<u8>, Error>) {
        self.workspace.generate(group)
    }

    fn pending_group(&self) -> (r: Option<KexGroup>) {
        self.workspace.pending_group()
    }

    fn agree(&mut self, server_share: &[u8]) -> (r: Result<SharedSecret, Error>) {
        self.workspace.agree(server_share)
    }

    fn clear(&mut self) {
        self.workspace.clear();
    }
}

} // verus!
