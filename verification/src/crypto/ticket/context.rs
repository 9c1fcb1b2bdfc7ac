//! The policy that a ticket was issued under.

use o3::collections::fixed::array::CopyInline;
use vstd::prelude::*;
use vstd::slice::slice_subrange;
use vstd::std_specs::cmp::PartialEqSpecImpl;

use crate::codec::{be32, bytes_eq, from_be32, lemma_be32, to_array};
use crate::crypto::hash::{digest_of, hashable, sha256, Algorithm};
use crate::crypto::ticket::buffer::{extend_plain, plain_bytes};
use crate::crypto::ticket::{
    Error, CONTEXT_LEN, LEGACY_CONTEXT_LEN, REPLAY_DOMAIN_LEN, TRANSPORT_PARAMS_HASH_LEN,
};
use crate::transport::Mode;

verus! {

pub const LEGACY_FORMAT_VERSION: u8 = 1;

pub const FORMAT_VERSION: u8 = 2;

/// The transport, the early-data allowance, the hash of the server's transport
/// parameters, and the replay domain, which the legacy format does not have.
#[verifier::ext_equal]
pub struct ContextView {
    pub mode: Mode,
    pub max_early_data: Option<u32>,
    pub params_hash: Seq<u8>,
    pub replay_domain: Option<Seq<u8>>,
}

/// Whether an allowance is one for a transport: QUIC's is always the largest
/// number, and TLS's never is.
pub open spec fn allowance_valid(mode: Mode, maximum: u32) -> bool {
    &&& maximum != 0
    &&& match mode {
        Mode::Tls => maximum != u32::MAX,
        Mode::Quic => maximum == u32::MAX,
    }
}

/// A transport's number.
pub open spec fn mode_id(mode: Mode) -> u8 {
    match mode {
        Mode::Tls => 0,
        Mode::Quic => 1,
    }
}

/// The bytes of a context, where it can be written.
pub open spec fn context_bytes(c: ContextView) -> Result<Seq<u8>, Error> {
    if c.replay_domain is None || (c.max_early_data matches Some(m) && !allowance_valid(c.mode, m)) {
        Err(Error::BadFormat)
    } else {
        let (present, maximum) = match c.max_early_data {
            Some(m) => (1u8, m),
            None => (0u8, 0u32),
        };
        Ok(seq![FORMAT_VERSION, mode_id(c.mode), present] + be32(maximum) + c.params_hash + c.replay_domain->0)
    }
}

/// How long a context of a version is.
pub open spec fn context_len(version: u8) -> Option<int> {
    if version == LEGACY_FORMAT_VERSION {
        Some(LEGACY_CONTEXT_LEN as int)
    } else if version == FORMAT_VERSION {
        Some(CONTEXT_LEN as int)
    } else {
        None
    }
}

/// The context in bytes.
pub open spec fn context_of(s: Seq<u8>) -> Result<ContextView, Error> {
    if s.len() == 0 || context_len(s[0]) != Some(s.len() as int) || s[1] > 1 {
        Err(Error::BadFormat)
    } else {
        let mode = if s[1] == 0 {
            Mode::Tls
        } else {
            Mode::Quic
        };
        let maximum = from_be32(s.skip(3));
        let legacy = s[0] == LEGACY_FORMAT_VERSION;
        if s[2] == 0 && maximum == 0 || s[2] == 1 && allowance_valid(mode, maximum) {
            Ok(
                ContextView {
                    mode,
                    max_early_data: if s[2] == 1 {
                        Some(maximum)
                    } else {
                        None
                    },
                    params_hash: s.subrange(7, 39),
                    replay_domain: if legacy {
                        None
                    } else {
                        Some(s.subrange(39, 55))
                    },
                },
            )
        } else {
            Err(Error::BadFormat)
        }
    }
}

/// A context that is written reads back as it was.
pub proof fn law_context_round_trip(c: ContextView)
    requires
        c.params_hash.len() == 32,
        c.replay_domain matches Some(d) ==> d.len() == 16,
        context_bytes(c) is Ok,
    ensures
        context_of(context_bytes(c)->Ok_0) == Ok::<ContextView, Error>(c),
        context_bytes(c)->Ok_0.len() == CONTEXT_LEN,
        context_bytes(c)->Ok_0[0] == FORMAT_VERSION,
{
    let s = context_bytes(c)->Ok_0;
    let maximum = match c.max_early_data {
        Some(m) => m,
        None => 0u32,
    };
    let rest = c.params_hash + c.replay_domain->0;
    assert(s.skip(3) =~= be32(maximum) + rest);
    lemma_be32(maximum, rest);
    assert(s.subrange(7, 39) =~= c.params_hash);
    assert(s.subrange(39, 55) =~= c.replay_domain->0);
    assert(context_of(s)->Ok_0 =~= c);
}

/// The early-data allowance of a ticket: it holds only for the transport, the
/// parameters and the replay domain it was issued under.
pub open spec fn allowance(c: ContextView, mode: Mode, params: Seq<u8>, domain: Seq<u8>) -> Option<u32> {
    match c.max_early_data {
        None => None,
        Some(m) => if c.replay_domain == Some(domain) && c.mode == mode && allowance_valid(mode, m)
            && c.params_hash == digest_of(Algorithm::Sha256, params) {
            Some(m)
        } else {
            None
        },
    }
}

/// A context issued for parameters grants its allowance under the same transport,
/// parameters and domain.
pub proof fn law_allowance_granted(mode: Mode, m: u32, params: Seq<u8>, domain: Seq<u8>)
    requires
        allowance_valid(mode, m),
    ensures
        allowance(
            ContextView {
                mode,
                max_early_data: Some(m),
                params_hash: digest_of(Algorithm::Sha256, params),
                replay_domain: Some(domain),
            },
            mode,
            params,
            domain,
        ) == Some(m),
{
}

/// The policy that a server issues a ticket under.
#[derive(Debug, Clone, Copy)]
pub struct Context {
    transport_mode: Mode,
    max_early_data: Option<u32>,
    transport_params_hash: [u8; TRANSPORT_PARAMS_HASH_LEN],
    replay_domain: Option<[u8; REPLAY_DOMAIN_LEN]>,
}

impl View for Context {
    type V = ContextView;

    closed spec fn view(&self) -> ContextView {
        ContextView {
            mode: self.transport_mode,
            max_early_data: self.max_early_data,
            params_hash: self.transport_params_hash@,
            replay_domain: match self.replay_domain {
                Some(d) => Some(d@),
                None => None,
            },
        }
    }
}

impl PartialEq for Context {
    fn eq(&self, other: &Self) -> (r: bool) {
        let same_domain = match (&self.replay_domain, &other.replay_domain) {
            (Some(a), Some(b)) => bytes_eq(a, b),
            (None, None) => true,
            _ => false,
        };
        let same_limit = match (self.max_early_data, other.max_early_data) {
            (Some(a), Some(b)) => a == b,
            (None, None) => true,
            _ => false,
        };
        self.transport_mode == other.transport_mode && same_limit && same_domain && bytes_eq(
            &self.transport_params_hash,
            &other.transport_params_hash,
        )
    }
}

impl PartialEqSpecImpl for Context {
    open spec fn obeys_eq_spec() -> bool {
        true
    }

    open spec fn eq_spec(&self, other: &Self) -> bool {
        self@ == other@
    }
}

impl Eq for Context {

}

/// The replay domain of a server that has not been given one.
pub open spec fn no_domain() -> Seq<u8> {
    Seq::new(16, |i: int| 0u8)
}

impl Context {
    /// How long the parts of a context are.
    pub proof fn lemma_lengths(self)
        ensures
            self@.params_hash.len() == 32,
            self@.replay_domain matches Some(d) ==> d.len() == 16,
    {
    }

    /// A policy without a replay domain of its own.
    pub fn new(transport_mode: Mode, max_early_data: Option<u32>, server_transport_params: &[u8]) -> (r: Self)
        requires
            hashable(server_transport_params@),
        ensures
            r@ == (ContextView {
                mode: transport_mode,
                max_early_data,
                params_hash: digest_of(Algorithm::Sha256, server_transport_params@),
                replay_domain: Some(no_domain()),
            }),
            r@.params_hash.len() == 32,
    {
        let zero: [u8; REPLAY_DOMAIN_LEN] = [0u8; REPLAY_DOMAIN_LEN];
        assert(zero@ =~= no_domain());
        Self::new_with_replay_domain(transport_mode, max_early_data, server_transport_params, zero)
    }

    /// A policy in a replay domain.
    pub fn new_with_replay_domain(
        transport_mode: Mode,
        max_early_data: Option<u32>,
        server_transport_params: &[u8],
        replay_domain: [u8; REPLAY_DOMAIN_LEN],
    ) -> (r: Self)
        requires
            hashable(server_transport_params@),
        ensures
            r@ == (ContextView {
                mode: transport_mode,
                max_early_data,
                params_hash: digest_of(Algorithm::Sha256, server_transport_params@),
                replay_domain: Some(replay_domain@),
            }),
            r@.params_hash.len() == 32,
    {
        Self {
            transport_mode,
            max_early_data,
            transport_params_hash: sha256(server_transport_params),
            replay_domain: Some(replay_domain),
        }
    }

    /// The transport.
    pub fn transport_mode(self) -> (r: Mode)
        ensures
            r == self@.mode,
    {
        self.transport_mode
    }

    /// The early-data allowance.
    pub fn max_early_data(self) -> (r: Option<u32>)
        ensures
            r == self@.max_early_data,
    {
        self.max_early_data
    }

    /// The replay domain.
    pub fn replay_domain(self) -> (r: Option<[u8; REPLAY_DOMAIN_LEN]>)
        ensures
            match self@.replay_domain {
                Some(d) => r is Some && r->0@ == d,
                None => r is None,
            },
    {
        self.replay_domain
    }

    /// The allowance, for the transport and the parameters it was issued under only.
    pub fn early_data_for(self, transport_mode: Mode, server_transport_params: &[u8]) -> (r: Option<u32>)
        requires
            hashable(server_transport_params@),
        ensures
            r == allowance(self@, transport_mode, server_transport_params@, no_domain()),
    {
        let zero: [u8; REPLAY_DOMAIN_LEN] = [0u8; REPLAY_DOMAIN_LEN];
        assert(zero@ =~= no_domain());
        self.early_data_for_replay_domain(transport_mode, server_transport_params, &zero)
    }

    /// The allowance, in the replay domain it was issued in only.
    pub fn early_data_for_replay_domain(
        self,
        transport_mode: Mode,
        server_transport_params: &[u8],
        replay_domain: &[u8; REPLAY_DOMAIN_LEN],
    ) -> (r: Option<u32>)
        requires
            hashable(server_transport_params@),
        ensures
            r == allowance(self@, transport_mode, server_transport_params@, replay_domain@),
    {
        let maximum: u32 = match self.max_early_data {
            Some(m) => m,
            None => return None,
        };
        let same_domain = match &self.replay_domain {
            Some(d) => bytes_eq(d, replay_domain),
            None => false,
        };
        if !same_domain || self.transport_mode != transport_mode || !valid_allowance(transport_mode, maximum) {
            return None;
        }
        let current: [u8; TRANSPORT_PARAMS_HASH_LEN] = sha256(server_transport_params);
        if bytes_eq(&self.transport_params_hash, &current) {
            Some(maximum)
        } else {
            None
        }
    }

    /// Appends the context to a plaintext that has room for it.
    pub(crate) fn encode(self, out: &mut CopyInline<u8, 357>) -> (r: Result<(), Error>)
        requires
            plain_bytes(*old(out)).len() + CONTEXT_LEN <= 357,
        ensures
            match context_bytes(self@) {
                Ok(x) => r is Ok && plain_bytes(*final(out)) == plain_bytes(*old(out)) + x && x.len()
                    == CONTEXT_LEN,
                Err(e) => r is Err && r->Err_0 == e,
            },
    {
        let ghost start = plain_bytes(*out);
        let domain = match self.replay_domain {
            Some(d) => d,
            None => return Err(Error::BadFormat),
        };
        let (present, maximum): (u8, u32) = match self.max_early_data {
            Some(m) => {
                if !valid_allowance(self.transport_mode, m) {
                    return Err(Error::BadFormat);
                }
                (1, m)
            },
            None => (0, 0),
        };
        let mode: u8 = match self.transport_mode {
            Mode::Tls => 0,
            Mode::Quic => 1,
        };
        let head: [u8; 7] = [
            FORMAT_VERSION,
            mode,
            present,
            (maximum / 16777216) as u8,
            (maximum / 65536 % 256) as u8,
            (maximum / 256 % 256) as u8,
            (maximum % 256) as u8,
        ];
        assert(head@ =~= seq![FORMAT_VERSION, mode, present] + be32(maximum));
        extend_plain(out, &head);
        extend_plain(out, &self.transport_params_hash);
        extend_plain(out, &domain);
        assert(plain_bytes(*out) =~= start + context_bytes(self@)->Ok_0);
        Ok(())
    }

    /// Reads a context.
    pub fn decode(encoded: &[u8]) -> (r: Result<Self, Error>)
        ensures
            match context_of(encoded@) {
                Ok(c) => r is Ok && r->Ok_0@ == c,
                Err(e) => r is Err && r->Err_0 == e,
            },
    {
        if encoded.len() == 0 {
            return Err(Error::BadFormat);
        }
        let version: u8 = encoded[0];
        let len: usize = Self::encoded_len(version)?;
        if encoded.len() != len {
            return Err(Error::BadFormat);
        }
        let transport_mode = match encoded[1] {
            0 => Mode::Tls,
            1 => Mode::Quic,
            _ => return Err(Error::BadFormat),
        };
        let maximum: u32 = encoded[3] as u32 * 16777216 + encoded[4] as u32 * 65536 + encoded[5] as u32 * 256
            + encoded[6] as u32;
        assert(maximum == from_be32(encoded@.skip(3)));
        let max_early_data = match encoded[2] {
            0 => {
                if maximum != 0 {
                    return Err(Error::BadFormat);
                }
                None
            },
            1 => {
                if !valid_allowance(transport_mode, maximum) {
                    return Err(Error::BadFormat);
                }
                Some(maximum)
            },
            _ => return Err(Error::BadFormat),
        };
        let transport_params_hash: [u8; 32] = to_array(slice_subrange(encoded, 7, 39));
        let replay_domain = if version == LEGACY_FORMAT_VERSION {
            None
        } else {
            let domain: [u8; REPLAY_DOMAIN_LEN] = to_array(slice_subrange(encoded, 39, 55));
            Some(domain)
        };
        Ok(Self { transport_mode, max_early_data, transport_params_hash, replay_domain })
    }

    /// How long a context of a version is.
    pub fn encoded_len(version: u8) -> (r: Result<usize, Error>)
        ensures
            match context_len(version) {
                Some(n) => r is Ok && r->Ok_0 == n,
                None => r is Err && r->Err_0 == Error::BadFormat,
            },
    {
        match version {
            1 => Ok(LEGACY_CONTEXT_LEN),
            2 => Ok(CONTEXT_LEN),
            _ => Err(Error::BadFormat),
        }
    }
}

fn valid_allowance(mode: Mode, maximum: u32) -> (r: bool)
    ensures
        r == allowance_valid(mode, maximum),
{
    maximum != 0 && match mode {
        Mode::Tls => maximum != u32::MAX,
        Mode::Quic => maximum == u32::MAX,
    }
}

} // verus!
