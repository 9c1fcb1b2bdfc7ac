//! SubjectPublicKeyInfo of the key types that raw public keys use: a fixed
//! prefix and the key.

use vstd::prelude::*;
use vstd::slice::slice_subrange;

use crate::codec::{bytes_eq, put_slice, to_array, to_vec};
use crate::identity::cert::algorithm::IdentifierView;
use crate::identity::cert::laws::{identifier_bytes, key_bytes, tlv};

verus! {

const ED25519_PREFIX: [u8; 12] = [
    0x30, 0x2a, 0x30, 0x05, 0x06, 0x03, 0x2b, 0x65, 0x70, 0x03, 0x21, 0x00,
];

const P256_PREFIX: [u8; 27] = [
    0x30, 0x59, 0x30, 0x13, 0x06, 0x07, 0x2a, 0x86, 0x48, 0xce, 0x3d, 0x02, 0x01, 0x06, 0x08, 0x2a,
    0x86, 0x48, 0xce, 0x3d, 0x03, 0x01, 0x07, 0x03, 0x42, 0x00, 0x04,
];

const P384_PREFIX: [u8; 24] = [
    0x30, 0x76, 0x30, 0x10, 0x06, 0x07, 0x2a, 0x86, 0x48, 0xce, 0x3d, 0x02, 0x01, 0x06, 0x05, 0x2b,
    0x81, 0x04, 0x00, 0x22, 0x03, 0x62, 0x00, 0x04,
];

pub const ED25519_LEN: usize = 44;

pub const P256_LEN: usize = 91;

pub const P256_PUBKEY_UNCOMPRESSED_LEN: usize = 65;

pub const P384_LEN: usize = 120;

pub const P384_PUBKEY_UNCOMPRESSED_LEN: usize = 97;

/// The DER in front of an Ed25519 public key.
pub closed spec fn ed25519_prefix() -> Seq<u8> {
    ED25519_PREFIX@
}

/// The DER in front of the coordinates of a P-256 point, with the byte 4 that
/// says it is uncompressed.
pub closed spec fn p256_prefix() -> Seq<u8> {
    P256_PREFIX@
}

/// The DER in front of the coordinates of a P-384 point, with the byte 4 that
/// says it is uncompressed.
pub closed spec fn p384_prefix() -> Seq<u8> {
    P384_PREFIX@
}

/// How long the fixed prefixes are.
pub proof fn lemma_prefix_lengths()
    ensures
        ed25519_prefix().len() == 12,
        p256_prefix().len() == 27,
        p384_prefix().len() == 24,
{
}

#[derive(Debug, Clone, Copy, PartialEq, Eq, Structural)]
pub enum Error {
    BadPrefix,
    BadLength,
}

/// A public key, elliptic-curve points in uncompressed form.
#[derive(Debug, Clone, PartialEq, Eq)]
pub enum SubjectPublicKey {
    Ed25519([u8; 32]),
    EcdsaP256(Vec<u8>),
    EcdsaP384(Vec<u8>),
}

/// A key's type and bytes.
#[verifier::ext_equal]
pub enum KeyView {
    Ed25519(Seq<u8>),
    EcdsaP256(Seq<u8>),
    EcdsaP384(Seq<u8>),
}

impl View for SubjectPublicKey {
    type V = KeyView;

    open spec fn view(&self) -> KeyView {
        match self {
            SubjectPublicKey::Ed25519(k) => KeyView::Ed25519(k@),
            SubjectPublicKey::EcdsaP256(k) => KeyView::EcdsaP256(k@),
            SubjectPublicKey::EcdsaP384(k) => KeyView::EcdsaP384(k@),
        }
    }
}

/// Whether `k` is an uncompressed point of `len` bytes.
pub open spec fn is_point(k: Seq<u8>, len: int) -> bool {
    k.len() == len && k[0] == 4
}

/// The DER of a key; only an uncompressed point of the right length has one.
pub open spec fn spki_der(k: KeyView) -> Result<Seq<u8>, Error> {
    match k {
        KeyView::Ed25519(pk) => Ok(ed25519_prefix() + pk),
        KeyView::EcdsaP256(p) => if is_point(p, 65) {
            Ok(p256_prefix() + p.skip(1))
        } else {
            Err(Error::BadLength)
        },
        KeyView::EcdsaP384(p) => if is_point(p, 97) {
            Ok(p384_prefix() + p.skip(1))
        } else {
            Err(Error::BadLength)
        },
    }
}

/// The key that `der` holds: the length says its type, the prefix must agree.
pub open spec fn spki_key(der: Seq<u8>) -> Result<KeyView, Error> {
    if der.len() == 44 {
        if der.take(12) == ed25519_prefix() {
            Ok(KeyView::Ed25519(der.skip(12)))
        } else {
            Err(Error::BadPrefix)
        }
    } else if der.len() == 91 {
        if der.take(27) == p256_prefix() {
            Ok(KeyView::EcdsaP256(seq![4u8] + der.skip(27)))
        } else {
            Err(Error::BadPrefix)
        }
    } else if der.len() == 120 {
        if der.take(24) == p384_prefix() {
            Ok(KeyView::EcdsaP384(seq![4u8] + der.skip(24)))
        } else {
            Err(Error::BadPrefix)
        }
    } else {
        Err(Error::BadLength)
    }
}

/// A key that has a DER form is decoded from it.
pub proof fn law_spki_round_trip(k: KeyView)
    requires
        spki_der(k) is Ok,
        k matches KeyView::Ed25519(pk) ==> pk.len() == 32,
    ensures
        spki_key(spki_der(k)->Ok_0) == Ok::<KeyView, Error>(k),
{
    lemma_prefix_lengths();
    let der = spki_der(k)->Ok_0;
    match k {
        KeyView::Ed25519(pk) => {
            assert(der.take(12) =~= ed25519_prefix());
            assert(der.skip(12) =~= pk);
        },
        KeyView::EcdsaP256(p) => {
            assert(der.take(27) =~= p256_prefix());
            assert(seq![4u8] + der.skip(27) =~= p);
        },
        KeyView::EcdsaP384(p) => {
            assert(der.take(24) =~= p384_prefix());
            assert(seq![4u8] + der.skip(24) =~= p);
        },
    }
}

/// What is decoded has the bytes it came from as its DER form.
pub proof fn law_spki_canonical(der: Seq<u8>)
    requires
        spki_key(der) is Ok,
    ensures
        spki_der(spki_key(der)->Ok_0) == Ok::<Seq<u8>, Error>(der),
{
    lemma_prefix_lengths();
    match spki_key(der)->Ok_0 {
        KeyView::Ed25519(pk) => {
            assert(ed25519_prefix() + pk =~= der);
        },
        KeyView::EcdsaP256(p) => {
            assert(p256_prefix() + p.skip(1) =~= der);
        },
        KeyView::EcdsaP384(p) => {
            assert(p384_prefix() + p.skip(1) =~= der);
        },
    }
}

fn with_prefix(prefix: &[u8], rest: &[u8]) -> (r: Vec<u8>)
    ensures
        r@ == prefix@ + rest@,
{
    let mut spki: Vec<u8> = to_vec(prefix);
    put_slice(&mut spki, rest);
    spki
}

/// What follows `prefix` in `spki`, where that is how it starts.
fn strip_prefix<'a>(spki: &'a [u8], prefix: &[u8]) -> (r: Option<&'a [u8]>)
    requires
        prefix.len() <= spki.len(),
    ensures
        match r {
            Some(rest) => spki@.take(prefix@.len() as int) == prefix@ && rest@ == spki@.skip(
                prefix@.len() as int,
            ),
            None => spki@.take(prefix@.len() as int) != prefix@,
        },
{
    let head = slice_subrange(spki, 0, prefix.len());
    assert(head@ =~= spki@.take(prefix@.len() as int));
    if bytes_eq(head, prefix) {
        let rest = slice_subrange(spki, prefix.len(), spki.len());
        assert(rest@ =~= spki@.skip(prefix@.len() as int));
        Some(rest)
    } else {
        None
    }
}

impl SubjectPublicKey {
    /// The DER of an Ed25519 key.
    pub fn encoded_ed25519(public_key: &[u8; 32]) -> (r: [u8; ED25519_LEN])
        ensures
            spki_der(KeyView::Ed25519(public_key@)) == Ok::<Seq<u8>, Error>(r@),
    {
        let v = with_prefix(&ED25519_PREFIX, public_key);
        to_array(v.as_slice())
    }

    /// The DER of this key.
    pub fn encode(&self) -> (r: Result<Vec<u8>, Error>)
        ensures
            match spki_der(self@) {
                Ok(der) => r is Ok && r->Ok_0@ == der,
                Err(e) => r == Err::<Vec<u8>, Error>(e),
            },
    {
        match self {
            SubjectPublicKey::Ed25519(pk) => {
                let v = Self::encoded_ed25519(pk);
                Ok(to_vec(&v))
            },
            SubjectPublicKey::EcdsaP256(uncompressed) => {
                if uncompressed.len() != P256_PUBKEY_UNCOMPRESSED_LEN || uncompressed[0] != 0x04 {
                    return Err(Error::BadLength);
                }
                let point = slice_subrange(uncompressed.as_slice(), 1, uncompressed.len());
                assert(point@ =~= uncompressed@.skip(1));
                Ok(with_prefix(&P256_PREFIX, point))
            },
            SubjectPublicKey::EcdsaP384(uncompressed) => {
                if uncompressed.len() != P384_PUBKEY_UNCOMPRESSED_LEN || uncompressed[0] != 0x04 {
                    return Err(Error::BadLength);
                }
                let point = slice_subrange(uncompressed.as_slice(), 1, uncompressed.len());
                assert(point@ =~= uncompressed@.skip(1));
                Ok(with_prefix(&P384_PREFIX, point))
            },
        }
    }

    /// The key that `spki` holds.
    pub fn decode(spki: &[u8]) -> (r: Result<Self, Error>)
        ensures
            match spki_key(spki@) {
                Ok(k) => r is Ok && r->Ok_0@ == k,
                Err(e) => r == Err::<Self, Error>(e),
            },
    {
        if spki.len() == ED25519_LEN {
            match strip_prefix(spki, &ED25519_PREFIX) {
                Some(pk) => Ok(SubjectPublicKey::Ed25519(to_array(pk))),
                None => Err(Error::BadPrefix),
            }
        } else if spki.len() == P256_LEN {
            match strip_prefix(spki, &P256_PREFIX) {
                Some(xy) => {
                    let out = with_prefix(&[0x04], xy);
                    assert([0x04u8]@ =~= seq![4u8]);
                    Ok(SubjectPublicKey::EcdsaP256(out))
                },
                None => Err(Error::BadPrefix),
            }
        } else if spki.len() == P384_LEN {
            match strip_prefix(spki, &P384_PREFIX) {
                Some(xy) => {
                    let out = with_prefix(&[0x04], xy);
                    assert([0x04u8]@ =~= seq![4u8]);
                    Ok(SubjectPublicKey::EcdsaP384(out))
                },
                None => Err(Error::BadPrefix),
            }
        } else {
            Err(Error::BadLength)
        }
    }
}

/// The encoding of a key is that of its algorithm and its bytes: Ed25519 is named alone,
/// and a point with its curve.
pub proof fn law_spki_names_its_key(k: KeyView)
    requires
        spki_der(k) is Ok,
        k matches KeyView::Ed25519(pk) ==> pk.len() == 32,
    ensures
        spki_der(k)->Ok_0 == match k {
            KeyView::Ed25519(pk) => key_bytes(
                IdentifierView { oid: seq![0x2bu8, 0x65, 0x70], parameters: Seq::empty() },
                pk,
            ),
            KeyView::EcdsaP256(p) => key_bytes(
                IdentifierView {
                    oid: seq![0x2au8, 0x86, 0x48, 0xce, 0x3d, 0x02, 1],
                    parameters: tlv(0x06, seq![0x2au8, 0x86, 0x48, 0xce, 0x3d, 0x03, 0x01, 0x07]),
                },
                p,
            ),
            KeyView::EcdsaP384(p) => key_bytes(
                IdentifierView {
                    oid: seq![0x2au8, 0x86, 0x48, 0xce, 0x3d, 0x02, 1],
                    parameters: tlv(0x06, seq![0x2bu8, 0x81, 0x04, 0x00, 0x22]),
                },
                p,
            ),
        },
{
    match k {
        KeyView::Ed25519(pk) => {
            let id = IdentifierView { oid: seq![0x2bu8, 0x65, 0x70], parameters: Seq::empty() };
            assert(tlv(0x06, id.oid) =~= seq![0x06u8, 3, 0x2b, 0x65, 0x70]);
            assert(identifier_bytes(id) =~= seq![0x30u8, 5, 0x06, 3, 0x2b, 0x65, 0x70]);
            assert(spki_der(k)->Ok_0 =~= key_bytes(id, pk));
        },
        KeyView::EcdsaP256(p) => {
            let curve = seq![0x2au8, 0x86, 0x48, 0xce, 0x3d, 0x03, 0x01, 0x07];
            let id = IdentifierView {
                oid: seq![0x2au8, 0x86, 0x48, 0xce, 0x3d, 0x02, 1],
                parameters: tlv(0x06, curve),
            };
            assert(tlv(0x06, id.oid) =~= seq![0x06u8, 7, 0x2a, 0x86, 0x48, 0xce, 0x3d, 0x02, 1]);
            assert(tlv(0x06, curve) =~= seq![0x06u8, 8] + curve);
            assert(identifier_bytes(id) =~= seq![0x30u8, 0x13] + tlv(0x06, id.oid) + tlv(0x06, curve));
            assert(spki_der(k)->Ok_0 =~= key_bytes(id, p));
        },
        KeyView::EcdsaP384(p) => {
            let curve = seq![0x2bu8, 0x81, 0x04, 0x00, 0x22];
            let id = IdentifierView {
                oid: seq![0x2au8, 0x86, 0x48, 0xce, 0x3d, 0x02, 1],
                parameters: tlv(0x06, curve),
            };
            assert(tlv(0x06, id.oid) =~= seq![0x06u8, 7, 0x2a, 0x86, 0x48, 0xce, 0x3d, 0x02, 1]);
            assert(tlv(0x06, curve) =~= seq![0x06u8, 5] + curve);
            assert(identifier_bytes(id) =~= seq![0x30u8, 0x10] + tlv(0x06, id.oid) + tlv(0x06, curve));
            assert(spki_der(k)->Ok_0 =~= key_bytes(id, p));
        },
    }
}

} // verus!
