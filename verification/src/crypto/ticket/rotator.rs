//! The rotation of ticket keys.

use vstd::prelude::*;

use crate::crypto::rng::random_array;
use crate::crypto::ticket::keys::KeysView;
use crate::crypto::ticket::secret::ticket_key;
use crate::crypto::ticket::{Error, Keys, Secret};

verus! {

/// When the current key came into use, how many tickets were sealed under it, and
/// after how long and how many it is replaced.
#[derive(Debug, Clone, Copy, PartialEq, Eq, Structural)]
pub struct Schedule {
    pub current_since_ms: u64,
    pub issued_under_current: u64,
    pub rotate_after_ms: u64,
    pub rotate_after_count: u64,
}

/// Whether the current key is due to be replaced.
pub open spec fn is_due(s: Schedule, now_ms: u64) -> bool {
    ||| (if now_ms >= s.current_since_ms {
        now_ms - s.current_since_ms
    } else {
        0
    }) >= s.rotate_after_ms
    ||| s.issued_under_current >= s.rotate_after_count
}

impl Schedule {
    /// Whether the current key is due to be replaced.
    pub fn due(&self, now_ms: u64) -> (r: bool)
        ensures
            r == is_due(*self, now_ms),
    {
        now_ms.saturating_sub(self.current_since_ms) >= self.rotate_after_ms || self.issued_under_current
            >= self.rotate_after_count
    }
}

/// The keys and the schedule of a rotator.
#[verifier::ext_equal]
pub struct RotatorView {
    pub keys: KeysView,
    pub schedule: Schedule,
}

/// A rotator that starts with the key of a secret.
pub open spec fn fresh(secret: Seq<u8>, now_ms: u64, rotate_after_ms: u64, rotate_after_count: u64) -> RotatorView {
    RotatorView {
        keys: KeysView { current: ticket_key(secret), previous: None },
        schedule: Schedule {
            current_since_ms: now_ms,
            issued_under_current: 0,
            rotate_after_ms,
            rotate_after_count,
        },
    }
}

/// A rotator whose current key was replaced by that of a secret.
pub open spec fn rotated(v: RotatorView, next: Seq<u8>, now_ms: u64) -> RotatorView {
    RotatorView {
        keys: KeysView { current: ticket_key(next), previous: Some(v.keys.current) },
        schedule: Schedule { current_since_ms: now_ms, issued_under_current: 0, ..v.schedule },
    }
}

/// A rotator under whose current key one more ticket is sealed.
pub open spec fn issued(v: RotatorView) -> RotatorView {
    RotatorView {
        keys: v.keys,
        schedule: Schedule {
            issued_under_current: if v.schedule.issued_under_current == u64::MAX {
                u64::MAX
            } else {
                (v.schedule.issued_under_current + 1) as u64
            },
            ..v.schedule
        },
    }
}

/// Keys of a new secret always replace what is due, and what was current is still
/// accepted.
pub proof fn law_rotation_keeps_previous(v: RotatorView, next: Seq<u8>, now_ms: u64)
    ensures
        rotated(v, next, now_ms).keys.previous == Some(v.keys.current),
        rotated(v, next, now_ms).keys.current == ticket_key(next),
        v.schedule.rotate_after_ms > 0 && v.schedule.rotate_after_count > 0 ==> !is_due(
            rotated(v, next, now_ms).schedule,
            now_ms,
        ),
{
}

/// Ticket keys that are replaced on a schedule, of which the one before the
/// current is still accepted.
pub struct Rotator {
    current: Secret,
    previous: Option<Secret>,
    schedule: Schedule,
}

impl View for Rotator {
    type V = RotatorView;

    closed spec fn view(&self) -> RotatorView {
        RotatorView {
            keys: KeysView {
                current: self.current@,
                previous: match self.previous {
                    Some(p) => Some(p@),
                    None => None,
                },
            },
            schedule: self.schedule,
        }
    }
}

impl Rotator {
    /// A rotator with a key of random bytes.
    pub fn new(now_ms: u64, rotate_after_ms: u64, rotate_after_count: u64) -> (r: Result<Self, Error>)
        ensures
            r is Err ==> r->Err_0 == Error::BadKey,
            r is Ok ==> exists|secret: Seq<u8>|
                secret.len() == 32 && r->Ok_0@ == #[trigger] fresh(
                    secret,
                    now_ms,
                    rotate_after_ms,
                    rotate_after_count,
                ),
    {
        match random_array() {
            Some(secret) => Self::from_secret(secret, now_ms, rotate_after_ms, rotate_after_count),
            None => Err(Error::BadKey),
        }
    }

    /// A rotator with the key of a secret.
    pub fn from_secret(secret: [u8; 32], now_ms: u64, rotate_after_ms: u64, rotate_after_count: u64) -> (r: Result<
        Self,
        Error,
    >)
        ensures
            r is Ok,
            r->Ok_0@ == fresh(secret@, now_ms, rotate_after_ms, rotate_after_count),
    {
        let current = Secret::new(secret)?;
        Ok(
            Self {
                current,
                previous: None,
                schedule: Schedule {
                    current_since_ms: now_ms,
                    issued_under_current: 0,
                    rotate_after_ms,
                    rotate_after_count,
                },
            },
        )
    }

    /// Keys for sealing now, replacing the current key first where it is due.
    pub fn issuing_keys(&mut self, now_ms: u64) -> (r: Result<Keys, Error>)
        ensures
            r is Err ==> r->Err_0 == Error::BadKey && is_due(old(self)@.schedule, now_ms) && final(self)@
                == old(self)@,
            r is Ok ==> r->Ok_0@ == final(self)@.keys,
            r is Ok && !is_due(old(self)@.schedule, now_ms) ==> final(self)@ == issued(old(self)@),
            r is Ok && is_due(old(self)@.schedule, now_ms) ==> exists|next: Seq<u8>|
                next.len() == 32 && final(self)@ == issued(#[trigger] rotated(old(self)@, next, now_ms)),
    {
        if self.schedule.due(now_ms) {
            match random_array() {
                Some(next) => {
                    self.rotate(next, now_ms)?;
                },
                None => return Err(Error::BadKey),
            }
        }
        Ok(self.issue())
    }

    /// Counts one more ticket, and gives out the keys.
    pub fn issue(&mut self) -> (r: Keys)
        ensures
            final(self)@ == issued(old(self)@),
            r@ == old(self)@.keys,
    {
        self.schedule.issued_under_current = self.schedule.issued_under_current.saturating_add(1);
        self.accepting_keys()
    }

    /// Current and previous keys for opening, without replacing any.
    pub fn accepting_keys(&self) -> (r: Keys)
        ensures
            r@ == self@.keys,
    {
        let previous = match &self.previous {
            Some(p) => Some(p.clone()),
            None => None,
        };
        Keys::of(self.current.clone(), previous)
    }

    /// Replaces the current key by that of a secret.
    pub fn rotate(&mut self, next: [u8; 32], now_ms: u64) -> (r: Result<(), Error>)
        ensures
            r is Ok,
            final(self)@ == rotated(old(self)@, next@, now_ms),
    {
        let current = Secret::new(next)?;
        let before = self.current.clone();
        self.previous = Some(before);
        self.current = current;
        self.schedule.current_since_ms = now_ms;
        self.schedule.issued_under_current = 0;
        Ok(())
    }
}

} // verus!
