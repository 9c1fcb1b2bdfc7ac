//! The algorithms of signatures and keys, by what names them.

use vstd::prelude::*;

use crate::crypto::sig::VerificationProfile;
use crate::identity::asn1::{after_tlv, der_oid, is_oid, law_der_round_trip};
use crate::identity::cert::algorithm::{
    public_key_algorithm, signature_algorithm, verification, IdentifierView, Mask, NamedCurve,
    PssParameters, PublicKey, Signature, DER_NULL,
};
use crate::identity::cert::laws::tlv;
use crate::identity::cert::{
    algorithm, Error, VerifyError, OID_ECDSA_SHA256, OID_ECDSA_SHA384, OID_EC_PUBLIC_KEY, OID_ED25519, OID_P256_CURVE,
    OID_P384_CURVE, OID_RSA_ENCRYPTION, OID_RSA_PSS, OID_SHA256_WITH_RSA, OID_SHA384_WITH_RSA, OID_SHA512_WITH_RSA,
};

verus! {

/// The object identifiers of RSA, told apart by their last byte.
pub open spec fn rsa_oid(last: u8) -> Seq<u8> {
    seq![0x2au8, 0x86, 0x48, 0x86, 0xf7, 0x0d, 0x01, 0x01, last]
}

/// The object identifiers of ECDSA with a hash, told apart by their last byte.
pub open spec fn ecdsa_oid(last: u8) -> Seq<u8> {
    seq![0x2au8, 0x86, 0x48, 0xce, 0x3d, 0x04, 0x03, last]
}

proof fn lemma_last(a: u8, b: u8)
    ensures
        rsa_oid(a) == rsa_oid(b) <==> a == b,
        ecdsa_oid(a) == ecdsa_oid(b) <==> a == b,
{
    assert(rsa_oid(a)[8] == a && rsa_oid(b)[8] == b);
    assert(ecdsa_oid(a)[7] == a && ecdsa_oid(b)[7] == b);
}

/// The RSA algorithms with PKCS #1 padding by their object identifiers: their parameters
/// are absent or null.
#[verifier::rlimit(40)]
pub proof fn law_rsa_signatures(last: u8, parameters: Seq<u8>)
    requires
        last == 11 || last == 12 || last == 13,
    ensures
        signature_algorithm(IdentifierView { oid: rsa_oid(last), parameters }) == if parameters.len() == 0 || parameters
            == seq![0x05u8, 0x00] {
            Ok::<Signature, Error>(
                if last == 11 {
                    Signature::RsaPkcs1Sha256
                } else if last == 12 {
                    Signature::RsaPkcs1Sha384
                } else {
                    Signature::RsaPkcs1Sha512
                },
            )
        } else {
            Err(Error::BadAlgorithm)
        },
{
    lemma_signature_oids();
    lemma_last(last, 11);
    lemma_last(last, 12);
    lemma_last(last, 13);
    assert(DER_NULL@ =~= seq![0x05u8, 0x00]);
}

/// The algorithms on curves by their object identifiers: they have no parameters.
#[verifier::rlimit(40)]
pub proof fn law_curve_signatures(last: u8, parameters: Seq<u8>)
    requires
        last == 2 || last == 3,
    ensures
        signature_algorithm(IdentifierView { oid: ecdsa_oid(last), parameters }) == if parameters.len() == 0 {
            Ok::<Signature, Error>(
                if last == 2 {
                    Signature::EcdsaSha256
                } else {
                    Signature::EcdsaSha384
                },
            )
        } else {
            Err(Error::BadAlgorithm)
        },
{
    lemma_signature_oids();
    lemma_last(last, 2);
    lemma_last(last, 3);
    let o = ecdsa_oid(last);
    assert(o.len() == 8);
    assert(rsa_oid(10).len() == 9 && rsa_oid(11).len() == 9 && rsa_oid(12).len() == 9 && rsa_oid(13).len() == 9);
    assert(o != OID_RSA_PSS@ && o != OID_SHA256_WITH_RSA@ && o != OID_SHA384_WITH_RSA@ && o != OID_SHA512_WITH_RSA@);
    let id = IdentifierView { oid: o, parameters };
    assert(id.oid == o);
}

/// The algorithm of Ed25519 by its object identifier: it has no parameters.
#[verifier::rlimit(40)]
pub proof fn law_edwards_signatures(parameters: Seq<u8>)
    ensures
        signature_algorithm(IdentifierView { oid: seq![0x2bu8, 0x65, 0x70], parameters }) == if parameters.len() == 0 {
            Ok::<Signature, Error>(Signature::Ed25519)
        } else {
            Err(Error::BadAlgorithm)
        },
{
    lemma_signature_oids();
    let o = seq![0x2bu8, 0x65, 0x70];
    assert(o.len() == 3);
    assert(rsa_oid(10).len() == 9 && rsa_oid(11).len() == 9 && rsa_oid(12).len() == 9 && rsa_oid(13).len() == 9);
    assert(ecdsa_oid(2).len() == 8 && ecdsa_oid(3).len() == 8);
    assert(o != OID_RSA_PSS@ && o != OID_SHA256_WITH_RSA@ && o != OID_SHA384_WITH_RSA@ && o != OID_SHA512_WITH_RSA@);
    assert(o != OID_ECDSA_SHA256@ && o != OID_ECDSA_SHA384@);
}

proof fn lemma_signature_oids()
    ensures
        OID_SHA256_WITH_RSA@ == rsa_oid(11),
        OID_SHA384_WITH_RSA@ == rsa_oid(12),
        OID_SHA512_WITH_RSA@ == rsa_oid(13),
        OID_RSA_PSS@ == rsa_oid(10),
        OID_RSA_ENCRYPTION@ == rsa_oid(1),
        OID_ECDSA_SHA256@ == ecdsa_oid(2),
        OID_ECDSA_SHA384@ == ecdsa_oid(3),
        OID_ED25519@ == seq![0x2bu8, 0x65, 0x70],
        OID_EC_PUBLIC_KEY@ == seq![0x2au8, 0x86, 0x48, 0xce, 0x3d, 0x02, 1],
        OID_P256_CURVE@ == seq![0x2au8, 0x86, 0x48, 0xce, 0x3d, 0x03, 0x01, 0x07],
        OID_P384_CURVE@ == seq![0x2bu8, 0x81, 0x04, 0x00, 0x22],
{
    assert(OID_SHA256_WITH_RSA@ =~= rsa_oid(11));
    assert(OID_SHA384_WITH_RSA@ =~= rsa_oid(12));
    assert(OID_SHA512_WITH_RSA@ =~= rsa_oid(13));
    assert(OID_RSA_PSS@ =~= rsa_oid(10));
    assert(OID_RSA_ENCRYPTION@ =~= rsa_oid(1));
    assert(OID_ECDSA_SHA256@ =~= ecdsa_oid(2));
    assert(OID_ECDSA_SHA384@ =~= ecdsa_oid(3));
    assert(OID_ED25519@ =~= seq![0x2bu8, 0x65, 0x70]);
    assert(OID_EC_PUBLIC_KEY@ =~= seq![0x2au8, 0x86, 0x48, 0xce, 0x3d, 0x02, 1]);
    assert(OID_P256_CURVE@ =~= seq![0x2au8, 0x86, 0x48, 0xce, 0x3d, 0x03, 0x01, 0x07]);
    assert(OID_P384_CURVE@ =~= seq![0x2bu8, 0x81, 0x04, 0x00, 0x22]);
}

/// The algorithms of keys without a curve by their object identifiers: an RSA key has a
/// null parameter and an Ed25519 key has none.
#[verifier::rlimit(40)]
pub proof fn law_key_algorithms(parameters: Seq<u8>)
    ensures
        public_key_algorithm(IdentifierView { oid: rsa_oid(1), parameters }) == if parameters == seq![0x05u8, 0x00] {
            Ok::<PublicKey, Error>(PublicKey::Rsa)
        } else {
            Err(Error::BadAlgorithm)
        },
        public_key_algorithm(IdentifierView { oid: seq![0x2bu8, 0x65, 0x70], parameters }) == if parameters.len() == 0 {
            Ok::<PublicKey, Error>(PublicKey::Ed25519)
        } else {
            Err(Error::BadAlgorithm)
        },
{
    lemma_signature_oids();
    assert(DER_NULL@ =~= seq![0x05u8, 0x00]);
    let o = seq![0x2bu8, 0x65, 0x70];
    assert(o.len() == 3);
    assert(rsa_oid(1).len() == 9 && rsa_oid(10).len() == 9);
    assert(OID_EC_PUBLIC_KEY@.len() == 7);
    assert(o != OID_RSA_ENCRYPTION@ && o != OID_RSA_PSS@ && o != OID_EC_PUBLIC_KEY@);
}

/// The algorithm of a key on a curve: its parameter names the curve.
#[verifier::rlimit(40)]
pub proof fn law_curve_keys(curve: Seq<u8>)
    requires
        is_oid(curve),
        curve.len() < 128,
    ensures
        public_key_algorithm(
            IdentifierView { oid: seq![0x2au8, 0x86, 0x48, 0xce, 0x3d, 0x02, 1], parameters: tlv(0x06, curve) },
        ) == Ok::<PublicKey, Error>(
            PublicKey::Ec(
                if curve == seq![0x2au8, 0x86, 0x48, 0xce, 0x3d, 0x03, 0x01, 0x07] {
                    NamedCurve::P256
                } else if curve == seq![0x2bu8, 0x81, 0x04, 0x00, 0x22] {
                    NamedCurve::P384
                } else {
                    NamedCurve::Unsupported
                },
            ),
        ),
{
    lemma_signature_oids();
    lemma_curve(curve);
    let o = seq![0x2au8, 0x86, 0x48, 0xce, 0x3d, 0x02, 1];
    assert(o.len() == 7);
    assert(rsa_oid(1).len() == 9 && rsa_oid(10).len() == 9);
    assert(o != OID_RSA_ENCRYPTION@ && o != OID_RSA_PSS@);
}

proof fn lemma_curve(oid: Seq<u8>)
    requires
        is_oid(oid),
        oid.len() < 128,
    ensures
        der_oid(tlv(0x06, oid)) is Ok,
        der_oid(tlv(0x06, oid))->Ok_0 == oid,
        after_tlv(tlv(0x06, oid)).len() == 0,
        tlv(0x06, oid).len() > 0,
{
    law_der_round_trip(0x06, oid, Seq::empty());
    assert(tlv(0x06, oid) + Seq::<u8>::empty() =~= tlv(0x06, oid));
}

/// Which signatures a key can verify, and how: RSA keys those of RSA, a key on a curve
/// those with the hash of its strength, and an Ed25519 key its own.
#[verifier::rlimit(40)]
pub proof fn law_keys_verify_their_own(s: Signature, key: PublicKey)
    ensures
        verification(s, key) is Ok ==> {
            ||| key == PublicKey::Rsa && (s is RsaPkcs1Sha256 || s is RsaPkcs1Sha384 || s is RsaPkcs1Sha512 || s is RsaPss)
            ||| key is RsaPss && s is RsaPss
            ||| key == PublicKey::Ec(NamedCurve::P256) && s == Signature::EcdsaSha256
            ||| key == PublicKey::Ec(NamedCurve::P384) && s == Signature::EcdsaSha384
            ||| key == PublicKey::Ed25519 && s == Signature::Ed25519
        },
        verification(Signature::RsaPkcs1Sha256, PublicKey::Rsa) == Ok::<VerificationProfile, VerifyError>(
            VerificationProfile::RsaPkcs1Sha256,
        ),
        verification(Signature::RsaPkcs1Sha384, PublicKey::Rsa) == Ok::<VerificationProfile, VerifyError>(
            VerificationProfile::RsaPkcs1Sha384,
        ),
        verification(Signature::RsaPkcs1Sha512, PublicKey::Rsa) == Ok::<VerificationProfile, VerifyError>(
            VerificationProfile::RsaPkcs1Sha512,
        ),
        verification(Signature::EcdsaSha256, PublicKey::Ec(NamedCurve::P256)) == Ok::<VerificationProfile, VerifyError>(
            VerificationProfile::EcdsaP256Sha256,
        ),
        verification(Signature::EcdsaSha384, PublicKey::Ec(NamedCurve::P384)) == Ok::<VerificationProfile, VerifyError>(
            VerificationProfile::EcdsaP384Sha384,
        ),
        verification(Signature::Ed25519, PublicKey::Ed25519) == Ok::<VerificationProfile, VerifyError>(
            VerificationProfile::Ed25519,
        ),
        s matches Signature::RsaPss(p) ==> {
            &&& verification(s, PublicKey::Rsa) is Ok <==> p.mask == Mask::Mgf1(p.hash) && (p.hash == Some(algorithm::Hash::Sha256)
                && p.salt_length == 32 || p.hash == Some(algorithm::Hash::Sha384) && p.salt_length == 48 || p.hash == Some(
                algorithm::Hash::Sha512,
            ) && p.salt_length == 64)
            &&& verification(s, PublicKey::Rsa) == Ok::<VerificationProfile, VerifyError>(
                VerificationProfile::RsaPssSha256,
            ) ==> p.salt_length == 32
            &&& verification(s, PublicKey::Rsa) == Ok::<VerificationProfile, VerifyError>(
                VerificationProfile::RsaPssSha384,
            ) ==> p.salt_length == 48
            &&& verification(s, PublicKey::Rsa) == Ok::<VerificationProfile, VerifyError>(
                VerificationProfile::RsaPssSha512,
            ) ==> p.salt_length == 64
            &&& verification(s, PublicKey::RsaPss(None)) == verification(s, PublicKey::Rsa)
        },
{
}

/// A key that is tied to parameters verifies what was signed with the same hash and mask
/// and with no less salt.
#[verifier::rlimit(40)]
pub proof fn law_tied_key(p: PssParameters, c: PssParameters)
    ensures
        verification(Signature::RsaPss(p), PublicKey::RsaPss(Some(c))) is Ok <==> verification(
            Signature::RsaPss(p),
            PublicKey::Rsa,
        ) is Ok && c.hash == p.hash && c.mask == p.mask && p.salt_length >= c.salt_length,
{
}

} // verus!
