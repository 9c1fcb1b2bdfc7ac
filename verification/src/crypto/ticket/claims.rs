//! What a ticket says.

use vstd::prelude::*;

use crate::codec::{
    be16, be32, be64, from_be16, from_be32, from_be64, lemma_be16, lemma_be32, lemma_be64_round_trip, vec8,
};
use crate::crypto::hash::{digest_of, Algorithm};
use crate::crypto::material::ResumptionPsk;
use crate::crypto::ticket::context::{
    context_bytes, context_len, context_of, law_context_round_trip, no_domain, ContextView,
};
use crate::crypto::ticket::{Context, Error, LEGACY_FIXED_PLAINTEXT_LEN, MAX_ALPN_LEN, PSK_LEN};
use crate::record::{suite_id, CipherSuite};
use crate::transport::Mode;

verus! {

/// What a ticket says: the resumption key, the mask over its age, when it was
/// issued, the suite, the application protocol, and the policy it was issued under.
#[verifier::ext_equal]
pub struct ClaimsView {
    pub psk: Seq<u8>,
    pub age_add: u32,
    pub issued_at_ms: u64,
    pub suite: CipherSuite,
    pub alpn: Seq<u8>,
    pub context: ContextView,
}

/// The bytes of a ticket's claims, where they can be written.
pub open spec fn claims_bytes(c: ClaimsView) -> Result<Seq<u8>, Error> {
    if c.alpn.len() > MAX_ALPN_LEN {
        Err(Error::BadFormat)
    } else {
        match context_bytes(c.context) {
            Err(e) => Err(e),
            Ok(x) => Ok(
                c.psk + be32(c.age_add) + be64(c.issued_at_ms) + be16(suite_id(c.suite)) + x + vec8(c.alpn),
            ),
        }
    }
}

/// The claims of a TLS server without early data.
pub open spec fn tls_claims(
    psk: Seq<u8>,
    age_add: u32,
    issued_at_ms: u64,
    suite: CipherSuite,
    alpn: Seq<u8>,
) -> ClaimsView {
    ClaimsView {
        psk,
        age_add,
        issued_at_ms,
        suite,
        alpn,
        context: ContextView {
            mode: Mode::Tls,
            max_early_data: None,
            params_hash: digest_of(Algorithm::Sha256, Seq::empty()),
            replay_domain: Some(no_domain()),
        },
    }
}

/// The suite with a code point.
pub open spec fn suite_of(id: u16) -> Option<CipherSuite> {
    if id == 0x1301 {
        Some(CipherSuite::Aes128GcmSha256)
    } else if id == 0x1302 {
        Some(CipherSuite::Aes256GcmSha384)
    } else if id == 0x1303 {
        Some(CipherSuite::ChaCha20Poly1305Sha256)
    } else {
        None
    }
}

/// The claims in bytes.
pub open spec fn claims_of(s: Seq<u8>) -> Result<ClaimsView, Error> {
    if s.len() < LEGACY_FIXED_PLAINTEXT_LEN {
        Err(Error::BadFormat)
    } else {
        match context_len(s[46]) {
            None => Err(Error::BadFormat),
            Some(n) => {
                let fixed = 46 + n + 1;
                if s.len() < fixed || s.len() != fixed + s[46 + n] {
                    Err(Error::BadFormat)
                } else {
                    match context_of(s.subrange(46, 46 + n)) {
                        Err(e) => Err(e),
                        Ok(context) => match suite_of(from_be16(s.skip(44))) {
                            None => Err(Error::BadFormat),
                            Some(suite) => Ok(
                                ClaimsView {
                                    psk: s.take(32),
                                    age_add: from_be32(s.skip(32)),
                                    issued_at_ms: from_be64(s.skip(36)),
                                    suite,
                                    alpn: s.skip(fixed),
                                    context,
                                },
                            ),
                        },
                    }
                }
            },
        }
    }
}

/// Claims that are written read back as they were.
pub proof fn law_claims_round_trip(c: ClaimsView)
    requires
        c.psk.len() == PSK_LEN,
        c.context.params_hash.len() == 32,
        c.context.replay_domain matches Some(d) ==> d.len() == 16,
        claims_bytes(c) is Ok,
    ensures
        claims_of(claims_bytes(c)->Ok_0) == Ok::<ClaimsView, Error>(c),
{
    let s = claims_bytes(c)->Ok_0;
    let x = context_bytes(c.context)->Ok_0;
    law_context_round_trip(c.context);
    let a = vec8(c.alpn);
    let after_psk = be32(c.age_add) + be64(c.issued_at_ms) + be16(suite_id(c.suite)) + x + a;
    let after_age = be64(c.issued_at_ms) + (be16(suite_id(c.suite)) + x + a);
    let after_issued = be16(suite_id(c.suite)) + (x + a);
    assert(s.skip(32) =~= be32(c.age_add) + after_age);
    assert(s.skip(36) =~= after_age);
    assert(s.skip(44) =~= after_issued);
    assert(s.take(32) =~= c.psk);
    lemma_be32(c.age_add, after_age);
    lemma_be64_round_trip(c.issued_at_ms, be16(suite_id(c.suite)) + x + a);
    lemma_be16(suite_id(c.suite), x + a);
    assert(s[46] == x[0]);
    assert(s.subrange(46, 101) =~= x);
    assert(s[101] == a[0]);
    assert(s.skip(102) =~= c.alpn);
}

/// Values authenticated inside an issued ticket.
pub struct Claims<'a> {
    pub psk: &'a ResumptionPsk,
    pub age_add: u32,
    pub issued_at_ms: u64,
    pub suite: CipherSuite,
    pub alpn: &'a [u8],
    pub context: Context,
}

impl<'a> View for Claims<'a> {
    type V = ClaimsView;

    open spec fn view(&self) -> ClaimsView {
        ClaimsView {
            psk: self.psk@,
            age_add: self.age_add,
            issued_at_ms: self.issued_at_ms,
            suite: self.suite,
            alpn: self.alpn@,
            context: self.context@,
        }
    }
}

} // verus!
