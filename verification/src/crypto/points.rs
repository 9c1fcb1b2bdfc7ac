//! Keys, signatures and shares by their code points and lengths.

use vstd::prelude::*;

use crate::crypto::aead::{key_len, AeadAlgorithm};
use crate::crypto::hash::{hash_len, Algorithm};
use crate::crypto::kx::{
    agreed_of, agreed_secret, answers_share, client_share_len, decapsulated, encapsulated, group_id, public_of,
    secret_len, server_share_len, EphemeralKeyView, KexGroup,
};
use crate::crypto::laws::{code, law_traffic_keys, traffic_upd_label};
use crate::crypto::material::{advanced, after_select, chosen_suite, side_secret, ActiveView, Side, StateView};
use crate::crypto::sig::{signature_valid, EcdsaCurve, SigningKeyView, VerificationProfile};
use crate::identity::cert::algorithm::{NamedCurve, PublicKey};
use crate::identity::cert::certificate;
use crate::identity::leafkey::{key_kind, key_profile, valid_key, LeafKeyKind};
use crate::identity::spki::{law_spki_round_trip, spki_der, KeyView};
use crate::peer;
use crate::peer::{leaf_verdict, raw_leaf, x509_leaf};
use crate::proto::x509_schemes;
use crate::record::{suite_cipher, suite_hash, suite_id, CipherSuite};
use crate::Error;

verus! {

/// The groups by their code points, with the lengths of the shares of both sides and of
/// the secret.
pub proof fn law_groups(g: KexGroup)
    ensures
        group_id(g) == 29 <==> g == KexGroup::X25519,
        group_id(g) == 23 <==> g == KexGroup::Secp256r1,
        group_id(g) == 4588 <==> g == KexGroup::X25519Mlkem768,
        g == KexGroup::X25519 ==> client_share_len(g) == 32 && server_share_len(g) == 32 && secret_len(g) == 32,
        g == KexGroup::Secp256r1 ==> client_share_len(g) == 65 && server_share_len(g) == 65 && secret_len(g) == 32,
        g == KexGroup::X25519Mlkem768 ==> client_share_len(g) == 1184 + 32 && server_share_len(g) == 1088 + 32
            && secret_len(g) == 64,
{
}

/// The suites by their code points, with the hash and the cipher that each ties together.
pub proof fn law_suites(s: CipherSuite)
    ensures
        suite_id(s) == 0x1301 <==> suite_hash(s) == Algorithm::Sha256 && suite_cipher(s) == AeadAlgorithm::Aes128Gcm,
        suite_id(s) == 0x1302 <==> suite_hash(s) == Algorithm::Sha384 && suite_cipher(s) == AeadAlgorithm::Aes256Gcm,
        suite_id(s) == 0x1303 <==> suite_hash(s) == Algorithm::Sha256 && suite_cipher(s)
            == AeadAlgorithm::ChaCha20Poly1305,
        suite_id(s) == 0x1301 || suite_id(s) == 0x1302 || suite_id(s) == 0x1303,
        suite_id(s) == 0x1301 ==> key_len(suite_cipher(s)) == 16,
        suite_id(s) != 0x1301 ==> key_len(suite_cipher(s)) == 32,
        hash_len(Algorithm::Sha256) == 32,
        hash_len(Algorithm::Sha384) == 48,
{
}

/// The secret of the hybrid group is that of the encapsulation and then that of the
/// curve: each half of a share decides its half of the secret, and a share of another
/// length agrees on nothing.
pub proof fn law_hybrid_secret(k: EphemeralKeyView, ciphertext: Seq<u8>, point: Seq<u8>)
    requires
        k.group == KexGroup::X25519Mlkem768,
        k.seed is Some,
        ciphertext.len() == 1088,
    ensures
        point.len() == 32 ==> agreed_secret(k, ciphertext + point) == match agreed_of(k.private, point) {
            Some(s) => Some(decapsulated(k.seed->0, ciphertext) + s),
            None => None,
        },
        point.len() != 32 ==> agreed_secret(k, ciphertext + point) is None,
{
    assert((ciphertext + point).take(1088) =~= ciphertext);
    assert((ciphertext + point).skip(1088) =~= point);
}

/// The secret of a curve is what its key agrees on with the point of the other side.
pub proof fn law_curve_secret(k: EphemeralKeyView, point: Seq<u8>)
    requires
        k.group != KexGroup::X25519Mlkem768,
    ensures
        point.len() == (if k.group == KexGroup::X25519 {
            32
        } else {
            65nat
        }) ==> agreed_secret(k, point) == agreed_of(k.private, point),
        point.len() != (if k.group == KexGroup::X25519 {
            32
        } else {
            65nat
        }) ==> agreed_secret(k, point) is None,
{
}

/// What a server answers to a share is what the client's key agrees with: on a curve, any
/// key with the client's share and the server's share agree on the secret.
pub proof fn law_answer_agrees(g: KexGroup, client_share: Seq<u8>, share: Seq<u8>, secret: Seq<u8>, key: EphemeralKeyView)
    requires
        answers_share(g, client_share, share, secret),
    ensures
        g != KexGroup::X25519Mlkem768 && public_of(key.private) == client_share ==> agreed_of(key.private, share) == Some(
            secret,
        ),
        g == KexGroup::X25519Mlkem768 && public_of(key.private) == client_share.skip(1184) ==> agreed_of(
            key.private,
            share.skip(1088),
        ) == Some(secret.skip(32)),
        g == KexGroup::X25519Mlkem768 ==> exists|r: Seq<u8>|
            #[trigger] encapsulated(client_share.take(1184), r) == (share.take(1088), secret.take(32)),
{
}

/// The scheme that a key signs with, by its code point.
pub proof fn law_signing_schemes(k: SigningKeyView)
    ensures
        k.scheme() == match k {
            SigningKeyView::Ed25519 { .. } => 0x0807u16,
            SigningKeyView::Ecdsa { curve, .. } => if curve == EcdsaCurve::P256 {
                0x0403
            } else {
                0x0503
            },
            SigningKeyView::Rsa { .. } => 0x0804,
        },
{
}

/// A signature that a key makes is one that the key of its public half verifies under the
/// scheme that is named with it.
pub proof fn law_signatures_verify(k: SigningKeyView, message: Seq<u8>, sig: Seq<u8>)
    requires
        k.signs(message, sig),
        k.paired(),
    ensures
        sig.len() <= 1024,
        match k {
            SigningKeyView::Ed25519 { public, .. } => leaf_verdict(
                peer::LeafKeyKind::Ed25519,
                public,
                k.scheme(),
                message,
                sig,
            ) is Ok,
            SigningKeyView::Ecdsa { public, .. } => leaf_verdict(
                peer::LeafKeyKind::Ecdsa,
                public,
                k.scheme(),
                message,
                sig,
            ) is Ok,
            SigningKeyView::Rsa { public, .. } => leaf_verdict(
                peer::LeafKeyKind::Rsa,
                public,
                k.scheme(),
                message,
                sig,
            ) is Ok,
        },
{
}

/// What is made of a signature with the key of a peer: the scheme must be one of the
/// key's kind, and the signature must be valid under it.
pub proof fn law_peer_signatures(kind: peer::LeafKeyKind, raw: Seq<u8>, scheme: u16, message: Seq<u8>, sig: Seq<u8>)
    ensures
        leaf_verdict(kind, raw, scheme, message, sig) == Err::<(), Error>(Error::UnsupportedSigScheme) <==> match kind {
            peer::LeafKeyKind::Ed25519 => scheme != 0x0807,
            peer::LeafKeyKind::Ecdsa => scheme != 0x0403 && scheme != 0x0503,
            peer::LeafKeyKind::Rsa => scheme != 0x0804 && scheme != 0x0805 && scheme != 0x0806,
        },
        leaf_verdict(kind, raw, scheme, message, sig) is Ok <==> {
            ||| kind == peer::LeafKeyKind::Ed25519 && scheme == 0x0807 && raw.len() == 32 && signature_valid(
                VerificationProfile::Ed25519,
                raw,
                message,
                sig,
            )
            ||| kind == peer::LeafKeyKind::Ecdsa && scheme == 0x0403 && signature_valid(
                VerificationProfile::EcdsaP256Sha256,
                raw,
                message,
                sig,
            )
            ||| kind == peer::LeafKeyKind::Ecdsa && scheme == 0x0503 && signature_valid(
                VerificationProfile::EcdsaP384Sha384,
                raw,
                message,
                sig,
            )
            ||| kind == peer::LeafKeyKind::Rsa && scheme == 0x0804 && signature_valid(
                VerificationProfile::RsaPssSha256,
                raw,
                message,
                sig,
            )
            ||| kind == peer::LeafKeyKind::Rsa && scheme == 0x0805 && signature_valid(
                VerificationProfile::RsaPssSha384,
                raw,
                message,
                sig,
            )
            ||| kind == peer::LeafKeyKind::Rsa && scheme == 0x0806 && signature_valid(
                VerificationProfile::RsaPssSha512,
                raw,
                message,
                sig,
            )
        },
        leaf_verdict(kind, raw, scheme, message, sig) matches Err(e) ==> e == Error::UnsupportedSigScheme || e
            == Error::BadCertificateVerify,
{
}

/// A key of a peer by the form that it has: which lengths and schemes go with it.
pub proof fn law_leaf_keys(kind: LeafKeyKind, raw: Seq<u8>, scheme: u16)
    ensures
        valid_key(kind, raw) <==> {
            ||| kind == LeafKeyKind::Ed25519 && raw.len() == 32
            ||| kind == LeafKeyKind::EcdsaP256 && raw.len() == 65 && raw[0] == 4
            ||| kind == LeafKeyKind::EcdsaP384 && raw.len() == 97 && raw[0] == 4
            ||| kind == LeafKeyKind::Rsa && 1 <= raw.len() <= 2048
        },
        key_profile(kind, scheme) is Some <==> {
            ||| kind == LeafKeyKind::Ed25519 && scheme == 0x0807
            ||| kind == LeafKeyKind::EcdsaP256 && scheme == 0x0403
            ||| kind == LeafKeyKind::EcdsaP384 && scheme == 0x0503
            ||| kind == LeafKeyKind::Rsa && 0x0804 <= scheme <= 0x0806
        },
        key_profile(LeafKeyKind::Ed25519, 0x0807) == Some(VerificationProfile::Ed25519),
        key_profile(LeafKeyKind::EcdsaP256, 0x0403) == Some(VerificationProfile::EcdsaP256Sha256),
        key_profile(LeafKeyKind::EcdsaP384, 0x0503) == Some(VerificationProfile::EcdsaP384Sha384),
        key_profile(LeafKeyKind::Rsa, 0x0804) == Some(VerificationProfile::RsaPssSha256),
        key_profile(LeafKeyKind::Rsa, 0x0805) == Some(VerificationProfile::RsaPssSha384),
        key_profile(LeafKeyKind::Rsa, 0x0806) == Some(VerificationProfile::RsaPssSha512),
        key_kind(PublicKey::Ed25519) == Some(LeafKeyKind::Ed25519),
        key_kind(PublicKey::Ec(NamedCurve::P256)) == Some(LeafKeyKind::EcdsaP256),
        key_kind(PublicKey::Ec(NamedCurve::P384)) == Some(LeafKeyKind::EcdsaP384),
        key_kind(PublicKey::Rsa) == Some(LeafKeyKind::Rsa),
        key_kind(PublicKey::Ec(NamedCurve::Unsupported)) is None,
        key_kind(PublicKey::Unsupported) is None,
{
}

/// One side of a connection goes on to its next secret, and the other stays.
pub proof fn law_sides_go_on(a: ActiveView)
    ensures
        ({
            let alg = if a.suite == CipherSuite::Aes256GcmSha384 {
                Algorithm::Sha384
            } else {
                Algorithm::Sha256
            };
            let n = if a.suite == CipherSuite::Aes256GcmSha384 {
                48nat
            } else {
                32
            };
            &&& advanced(a, Side::Client).client == code(alg, a.client, traffic_upd_label(), Seq::empty(), n)
            &&& advanced(a, Side::Client).server == a.server
            &&& advanced(a, Side::Server).server == code(alg, a.server, traffic_upd_label(), Seq::empty(), n)
            &&& advanced(a, Side::Server).client == a.client
            &&& advanced(a, Side::Client).suite == a.suite && advanced(a, Side::Server).suite == a.suite
            &&& side_secret(a, Side::Client) == a.client && side_secret(a, Side::Server) == a.server
        }),
{
    law_traffic_keys(suite_hash(a.suite), a.client, 16);
    law_traffic_keys(suite_hash(a.suite), a.server, 16);
}

/// A suite is chosen by the first choice.
pub proof fn law_first_suite(suite: CipherSuite, other: CipherSuite)
    ensures
        chosen_suite(StateView::Empty) is None,
        chosen_suite(after_select(StateView::Empty, suite)) == Some(suite),
        chosen_suite(after_select(after_select(StateView::Empty, suite), other)) == Some(suite),
{
}

/// The key that a certificate or a bare key gives of a peer is the one that stands in it,
/// by its kind.
pub proof fn law_keys_of_peers(cert_der: Seq<u8>, k: KeyView)
    ensures
        certificate(cert_der) matches Ok(c) ==> match c.tbs.spki.algorithm {
            PublicKey::Ed25519 => x509_leaf(cert_der) == Ok::<(peer::LeafKeyKind, Seq<u8>, Seq<u8>), Error>(
                (peer::LeafKeyKind::Ed25519, c.tbs.spki.key, c.tbs.spki.der),
            ),
            PublicKey::Ec(_) => x509_leaf(cert_der) == Ok::<(peer::LeafKeyKind, Seq<u8>, Seq<u8>), Error>(
                (peer::LeafKeyKind::Ecdsa, c.tbs.spki.key, c.tbs.spki.der),
            ),
            PublicKey::Rsa => x509_leaf(cert_der) == Ok::<(peer::LeafKeyKind, Seq<u8>, Seq<u8>), Error>(
                (peer::LeafKeyKind::Rsa, c.tbs.spki.key, c.tbs.spki.der),
            ),
            _ => x509_leaf(cert_der) is Err,
        },
        certificate(cert_der) is Err ==> x509_leaf(cert_der) is Err,
        spki_der(k) is Ok && (k is Ed25519 ==> k->Ed25519_0.len() == 32) ==> raw_leaf(spki_der(k)->Ok_0) == Ok::<
            (peer::LeafKeyKind, Seq<u8>),
            Error,
        >(
            match k {
                KeyView::Ed25519(pk) => (peer::LeafKeyKind::Ed25519, pk),
                KeyView::EcdsaP256(p) => (peer::LeafKeyKind::Ecdsa, p),
                KeyView::EcdsaP384(p) => (peer::LeafKeyKind::Ecdsa, p),
            },
        ),
{
    if spki_der(k) is Ok && (k is Ed25519 ==> k->Ed25519_0.len() == 32) {
        law_spki_round_trip(k);
    }
}

/// A key goes with a chain whose certificates can all be read and whose first holds its
/// public half.
pub proof fn law_key_goes_with_chain(k: SigningKeyView, chain: Seq<Seq<u8>>)
    requires
        k.heads_chain(chain),
    ensures
        chain.len() > 0,
        forall|i: int| 0 <= i < chain.len() ==> certificate(#[trigger] chain[i]) is Ok,
        ({
            let spki = certificate(chain[0])->Ok_0.tbs.spki;
            match k {
                SigningKeyView::Ed25519 { public, .. } => spki.algorithm == PublicKey::Ed25519 && spki.key == public,
                SigningKeyView::Ecdsa { curve, public, .. } => spki.algorithm == PublicKey::Ec(
                    if curve == EcdsaCurve::P256 {
                        NamedCurve::P256
                    } else {
                        NamedCurve::P384
                    },
                ) && spki.key == public,
                SigningKeyView::Rsa { public, .. } => spki.algorithm == PublicKey::Rsa && spki.key == public,
            }
        }),
        x509_leaf(chain[0]) is Ok,
{
    assert(certificate(chain[0]) is Ok);
}

/// The schemes that a client may sign with, the one that is liked best first.
pub proof fn law_schemes_that_are_asked_for()
    ensures
        x509_schemes() == seq![0x0403u16, 0x0804, 0x0503, 0x0805, 0x0806, 0x0807],
{
    assert(x509_schemes() =~= seq![0x0403u16, 0x0804, 0x0503, 0x0805, 0x0806, 0x0807]);
}

} // verus!
