//! Key exchange: elliptic-curve Diffie-Hellman, alone or beside ML-KEM-768.

use ring::agreement;
use vstd::prelude::*;
use vstd::slice::slice_subrange;

use crate::codec::{put_slice, to_vec};
use crate::crypto::hash::wipe;
use crate::crypto::rng::random_array;

pub mod initiator;

pub use initiator::{Initiator, Owned, Workspace};

verus! {

/// Largest (EC)DHE / hybrid shared secret: ML-KEM-768 (32) and X25519 (32).
pub const MAX_SHARED_LEN: usize = 64;

pub const X25519_LEN: usize = 32;

pub const P256_LEN: usize = 65;

pub const MLKEM768_EK_LEN: usize = 1184;

pub const MLKEM768_CT_LEN: usize = 1088;

pub const MAX_CLIENT_SHARE_LEN: usize = 1216;

pub const MAX_SERVER_SHARE_LEN: usize = 1120;

/// (EC)DHE / hybrid shared secret of up to [`MAX_SHARED_LEN`] bytes, kept inline
/// (no heap) and wiped on drop.
pub struct SharedSecret {
    bytes: [u8; MAX_SHARED_LEN],
    len: usize,
}

impl View for SharedSecret {
    type V = Seq<u8>;

    closed spec fn view(&self) -> Seq<u8> {
        self.bytes@.take(self.len as int)
    }
}

impl Drop for SharedSecret {
    fn drop(&mut self)
        opens_invariants none
        no_unwind
    {
        proof {
            use_type_invariant(&*self);
        }
        let all: &mut [u8] = &mut self.bytes;
        wipe(all);
    }
}

impl SharedSecret {
    #[verifier::type_invariant]
    spec fn valid(self) -> bool {
        self.len <= MAX_SHARED_LEN
    }

    /// The secret `s`.
    pub fn from_slice(s: &[u8]) -> (r: Self)
        requires
            s.len() <= MAX_SHARED_LEN,
        ensures
            r@ == s@,
    {
        let none: [u8; 0] = [];
        let r = Self::from_parts(s, &none);
        assert(r@ =~= s@);
        r
    }

    /// The secret `a` with `b` behind it.
    pub fn from_parts(a: &[u8], b: &[u8]) -> (r: Self)
        requires
            a.len() + b.len() <= MAX_SHARED_LEN,
        ensures
            r@ == a@ + b@,
    {
        let mut bytes: [u8; MAX_SHARED_LEN] = [0u8; MAX_SHARED_LEN];
        let mut i: usize = 0;
        while i < a.len()
            invariant
                i <= a.len() <= MAX_SHARED_LEN,
                bytes@.len() == MAX_SHARED_LEN,
                forall|j: int| 0 <= j < i ==> bytes@[j] == a@[j],
            decreases a.len() - i,
        {
            bytes[i] = a[i];
            i = i + 1;
        }
        let mut k: usize = 0;
        while k < b.len()
            invariant
                k <= b.len(),
                a.len() + b.len() <= MAX_SHARED_LEN,
                bytes@.len() == MAX_SHARED_LEN,
                forall|j: int| 0 <= j < a.len() ==> bytes@[j] == a@[j],
                forall|j: int| 0 <= j < k ==> bytes@[a.len() + j] == b@[j],
            decreases b.len() - k,
        {
            bytes[a.len() + k] = b[k];
            k = k + 1;
        }
        let r = Self { bytes, len: a.len() + b.len() };
        assert(r@ =~= a@ + b@);
        r
    }

    /// The bytes.
    pub fn as_slice(&self) -> (r: &[u8])
        ensures
            r@ == self@,
            r@.len() <= MAX_SHARED_LEN,
    {
        proof {
            use_type_invariant(self);
        }
        let r = slice_subrange(&self.bytes, 0, self.len);
        assert(r@ =~= self@);
        r
    }
}

#[derive(Debug, Clone, Copy, PartialEq, Eq, Structural)]
pub enum Error {
    Generate,
    InvalidPubkey,
    InvalidOutput,
}

/// A key exchange group.
#[derive(Debug, Clone, Copy, PartialEq, Eq, Structural)]
pub enum KexGroup {
    X25519,
    Secp256r1,
    X25519Mlkem768,
}

/// A group's code point.
pub open spec fn group_id(g: KexGroup) -> u16 {
    match g {
        KexGroup::X25519 => 0x001d,
        KexGroup::Secp256r1 => 0x0017,
        KexGroup::X25519Mlkem768 => 0x11ec,
    }
}

/// How long a client's share is.
pub open spec fn client_share_len(g: KexGroup) -> nat {
    match g {
        KexGroup::X25519 => 32,
        KexGroup::Secp256r1 => 65,
        KexGroup::X25519Mlkem768 => 1216,
    }
}

/// How long a server's share is.
pub open spec fn server_share_len(g: KexGroup) -> nat {
    match g {
        KexGroup::X25519 => 32,
        KexGroup::Secp256r1 => 65,
        KexGroup::X25519Mlkem768 => 1120,
    }
}

/// Code points name groups one to one.
pub proof fn law_group_ids_distinct(a: KexGroup, b: KexGroup)
    requires
        group_id(a) == group_id(b),
    ensures
        a == b,
{
}

impl KexGroup {
    /// Preference order keeps X25519MLKEM768 last, selecting it only when the
    /// client commits a hybrid key share.
    pub const SUPPORTED: [KexGroup; 3] = [
        KexGroup::X25519,
        KexGroup::Secp256r1,
        KexGroup::X25519Mlkem768,
    ];

    /// The group with code point `v`.
    pub fn from_u16(v: u16) -> (r: Option<Self>)
        ensures
            r matches Some(g) ==> group_id(g) == v,
            r is None ==> forall|g: KexGroup| #[trigger] group_id(g) != v,
    {
        match v {
            0x001d => Some(KexGroup::X25519),
            0x0017 => Some(KexGroup::Secp256r1),
            0x11ec => Some(KexGroup::X25519Mlkem768),
            _ => None,
        }
    }

    /// The code point.
    pub fn wire_id(self) -> (r: u16)
        ensures
            r == group_id(self),
    {
        match self {
            KexGroup::X25519 => 0x001d,
            KexGroup::Secp256r1 => 0x0017,
            KexGroup::X25519Mlkem768 => 0x11ec,
        }
    }

    /// The code point.
    pub fn to_u16(self) -> (r: u16)
        ensures
            r == group_id(self),
    {
        self.wire_id()
    }

    /// How long a server's share is.
    pub fn server_share_len(self) -> (r: usize)
        ensures
            r == server_share_len(self),
    {
        match self {
            KexGroup::X25519 => X25519_LEN,
            KexGroup::Secp256r1 => P256_LEN,
            KexGroup::X25519Mlkem768 => MLKEM768_CT_LEN + X25519_LEN,
        }
    }

    fn curve(self) -> (r: Curve)
        ensures
            r == (if self == KexGroup::Secp256r1 { Curve::P256 } else { Curve::X25519 }),
    {
        match self {
            KexGroup::Secp256r1 => Curve::P256,
            KexGroup::X25519 => Curve::X25519,
            KexGroup::X25519Mlkem768 => Curve::X25519,
        }
    }
}

/// The curve of a Diffie-Hellman exchange.
#[derive(Debug, Clone, Copy, PartialEq, Eq, Structural)]
enum Curve {
    X25519,
    P256,
}

#[verifier::external_type_specification]
#[verifier::external_body]
pub struct ExEphemeralPrivateKey(agreement::EphemeralPrivateKey);

/// The public key of a private key.
pub uninterp spec fn public_of(key: agreement::EphemeralPrivateKey) -> Seq<u8>;

/// The secret that the owner of a private key shares with the owner of a public
/// key; nothing where that is no valid public key of the private key's curve.
pub uninterp spec fn agreed_of(key: agreement::EphemeralPrivateKey, peer: Seq<u8>) -> Option<Seq<u8>>;

/// How long a public key on a curve is: an uncompressed point on P-256.
spec fn public_len(curve: Curve) -> nat {
    match curve {
        Curve::X25519 => 32,
        Curve::P256 => 65,
    }
}

/// `ring::agreement::EphemeralPrivateKey::generate` with system randomness: a
/// fresh private key on a curve, which fixes how long its public key is. Which key
/// it is rests on chance.
#[verifier::external_body]
fn ring_generate(curve: Curve) -> (r: Option<agreement::EphemeralPrivateKey>)
    ensures
        r matches Some(k) ==> public_of(k).len() == public_len(curve),
{
    let algorithm = match curve {
        Curve::X25519 => &agreement::X25519,
        Curve::P256 => &agreement::ECDH_P256,
    };
    let rng = ring::rand::SystemRandom::new();
    agreement::EphemeralPrivateKey::generate(algorithm, &rng).ok()
}

/// `ring::agreement::EphemeralPrivateKey::compute_public_key`: the public key of
/// a private key, which is a function of it. That there is one is left unsaid.
#[verifier::external_body]
fn ring_public_key(key: &agreement::EphemeralPrivateKey) -> (r: Option<Vec<u8>>)
    ensures
        r matches Some(p) ==> p@ == public_of(*key),
{
    Some(key.compute_public_key().ok()?.as_ref().to_vec())
}

/// `ring::agreement::agree_ephemeral` with a public key for the private key's own
/// algorithm: the secret shared with the owner of `peer`, a function of both. It
/// is 32 bytes long on both curves. There is none where `peer` is no valid public
/// key of the curve, as one of another length is not. It is an agreement: the owner
/// of `peer` gets the same out of this private key's public key.
#[verifier::external_body]
fn ring_agree(key: agreement::EphemeralPrivateKey, peer: &[u8]) -> (r: Option<Vec<u8>>)
    ensures
        match agreed_of(key, peer@) {
            Some(s) => r matches Some(v) && v@ == s && s.len() == 32,
            None => r is None,
        },
        peer@.len() != public_of(key).len() ==> r is None,
        r matches Some(v) ==> forall|other: agreement::EphemeralPrivateKey| #[trigger]
            public_of(other) == peer@ ==> agreed_of(other, public_of(key)) == Some(v@),
{
    let peer = agreement::UnparsedPublicKey::new(key.algorithm(), peer);
    agreement::agree_ephemeral(key, &peer, |secret| secret.to_vec()).ok()
}

/// Whether bytes are an encapsulation key.
pub uninterp spec fn is_encapsulation_key(ek: Seq<u8>) -> bool;

/// The ciphertext and shared secret that encapsulation to `ek` gives under
/// `randomness`.
pub uninterp spec fn encapsulated(ek: Seq<u8>, randomness: Seq<u8>) -> (Seq<u8>, Seq<u8>);

/// The encapsulation key of the key pair with seed `seed`.
pub uninterp spec fn encapsulation_key(seed: Seq<u8>) -> Seq<u8>;

/// The shared secret that the key pair with seed `seed` takes from `ciphertext`.
pub uninterp spec fn decapsulated(seed: Seq<u8>, ciphertext: Seq<u8>) -> Seq<u8>;

/// `ml_kem`'s `EncapsulationKey::<MlKem768>::new_from_slice`: whether bytes are a
/// key is a function of them; a key has 1184.
#[verifier::external_body]
fn mlkem_is_key(ek: &[u8]) -> (r: bool)
    ensures
        r == is_encapsulation_key(ek@),
        r ==> ek@.len() == 1184,
{
    <ml_kem::ml_kem_768::EncapsulationKey as ml_kem::TryKeyInit>::new_from_slice(ek).is_ok()
}

/// `ml_kem`'s `EncapsulationKey::<MlKem768>::encapsulate_deterministic` on a key:
/// the result is a function of the key and the randomness; a ciphertext has 1088
/// bytes and a secret 32.
#[verifier::external_body]
fn mlkem_encapsulate(ek: &[u8], randomness: [u8; 32]) -> (r: Option<(Vec<u8>, Vec<u8>)>)
    requires
        is_encapsulation_key(ek@),
    ensures
        r is Some,
        (r->0).0@ == encapsulated(ek@, randomness@).0,
        (r->0).1@ == encapsulated(ek@, randomness@).1,
        (r->0).0@.len() == 1088,
        (r->0).1@.len() == 32,
{
    let ek = <ml_kem::ml_kem_768::EncapsulationKey as ml_kem::TryKeyInit>::new_from_slice(ek);
    let (ct, ss) = ek.ok()?.encapsulate_deterministic(&ml_kem::B32::from(randomness));
    Some((ct.as_slice().to_vec(), ss.as_slice().to_vec()))
}

/// `ml_kem`'s `DecapsulationKey::<MlKem768>::from_seed` and the bytes of its
/// `encapsulation_key`: a function of the seed, 1184 bytes long.
#[verifier::external_body]
fn mlkem_encapsulation_key(seed: [u8; 64]) -> (r: Vec<u8>)
    ensures
        r@ == encapsulation_key(seed@),
        r@.len() == 1184,
{
    let dk = ml_kem::ml_kem_768::DecapsulationKey::from_seed(ml_kem::Seed::from(seed));
    ml_kem::KeyExport::to_bytes(dk.encapsulation_key()).as_slice().to_vec()
}

/// `ml_kem`'s `Decapsulate::decapsulate` for the key pair with seed `seed`, on a
/// ciphertext of the right length: a function of the seed and the ciphertext, 32
/// bytes long. That it is the secret that was encapsulated holds but for a
/// negligible share of seeds and randomness, and is left unsaid.
#[verifier::external_body]
fn mlkem_decapsulate(seed: [u8; 64], ciphertext: &[u8]) -> (r: Option<Vec<u8>>)
    requires
        ciphertext@.len() == 1088,
    ensures
        r is Some,
        r->0@ == decapsulated(seed@, ciphertext@),
        r->0@.len() == 32,
{
    let dk = ml_kem::ml_kem_768::DecapsulationKey::from_seed(ml_kem::Seed::from(seed));
    let ct = ml_kem::ml_kem_768::Ciphertext::try_from(ciphertext).ok()?;
    Some(ml_kem::Decapsulate::decapsulate(&dk, &ct).as_slice().to_vec())
}

/// A server key-exchange result borrowing the caller-owned output containing its
/// share.
pub struct ServerResponse<'output> {
    share: &'output [u8],
    secret: SharedSecret,
}

/// What a server sends and what it shares with the client.
pub struct ServerResponseView {
    pub share: Seq<u8>,
    pub secret: Seq<u8>,
}

impl<'output> View for ServerResponse<'output> {
    type V = ServerResponseView;

    closed spec fn view(&self) -> ServerResponseView {
        ServerResponseView { share: self.share@, secret: self.secret@ }
    }
}

impl<'output> ServerResponse<'output> {
    /// What the server sends.
    pub fn share(&self) -> (r: &'output [u8])
        ensures
            r@ == self@.share,
    {
        self.share
    }

    /// What the server shares with the client.
    pub fn shared_secret(&self) -> (r: &SharedSecret)
        ensures
            r@ == self@.secret,
    {
        &self.secret
    }

    /// What the server shares with the client.
    pub fn into_secret(self) -> (r: SharedSecret)
        ensures
            r@ == self@.secret,
    {
        self.secret
    }
}

/// The share and secret of an elliptic-curve exchange, out of the public key and
/// the agreed secret; nothing agreed means that the peer's share was invalid.
pub fn classical_response(group: KexGroup, public: Vec<u8>, agreed: Option<Vec<u8>>) -> (r: Result<
    (Vec<u8>, SharedSecret),
    Error,
>)
    requires
        agreed matches Some(s) ==> s@.len() <= MAX_SHARED_LEN,
    ensures
        public@.len() != server_share_len(group) ==> r is Err && r->Err_0 == Error::Generate,
        public@.len() == server_share_len(group) ==> match agreed {
            Some(s) => r is Ok && r->Ok_0.0@ == public@ && r->Ok_0.1@ == s@,
            None => r is Err && r->Err_0 == Error::InvalidPubkey,
        },
{
    if public.len() != group.server_share_len() {
        return Err(Error::Generate);
    }
    match agreed {
        Some(s) => Ok((public, SharedSecret::from_slice(s.as_slice()))),
        None => Err(Error::InvalidPubkey),
    }
}

/// The share and secret of a hybrid exchange, out of the encapsulation's and the
/// elliptic-curve exchange's; nothing agreed means that the peer's share was
/// invalid.
pub fn hybrid_response(
    ciphertext: &[u8],
    mlkem_secret: &[u8],
    public: &[u8],
    agreed: Option<Vec<u8>>,
) -> (r: Result<(Vec<u8>, SharedSecret), Error>)
    requires
        agreed matches Some(s) ==> mlkem_secret@.len() + s@.len() <= MAX_SHARED_LEN,
    ensures
        public@.len() != X25519_LEN ==> r is Err && r->Err_0 == Error::Generate,
        public@.len() == X25519_LEN ==> match agreed {
            Some(s) => r is Ok && r->Ok_0.0@ == ciphertext@ + public@ && r->Ok_0.1@ == mlkem_secret@
                + s@,
            None => r is Err && r->Err_0 == Error::InvalidPubkey,
        },
{
    if public.len() != X25519_LEN {
        return Err(Error::Generate);
    }
    match agreed {
        Some(s) => {
            let mut share = to_vec(ciphertext);
            put_slice(&mut share, public);
            Ok((share, SharedSecret::from_parts(mlkem_secret, s.as_slice())))
        },
        None => Err(Error::InvalidPubkey),
    }
}

/// How long a shared secret is.
pub open spec fn secret_len(g: KexGroup) -> nat {
    if g == KexGroup::X25519Mlkem768 {
        64
    } else {
        32
    }
}

/// Whether a share and a secret are an elliptic-curve answer to a client's share:
/// the share is a private key's public key, and the secret is what that private key
/// has in common with the client's share. It is then also what the client gets.
pub open spec fn exchanged(client_share: Seq<u8>, share: Seq<u8>, secret: Seq<u8>) -> bool {
    &&& exists|key: agreement::EphemeralPrivateKey| #[trigger]
        public_of(key) == share && agreed_of(key, client_share) == Some(secret)
    &&& forall|other: agreement::EphemeralPrivateKey| #[trigger]
        public_of(other) == client_share ==> agreed_of(other, share) == Some(secret)
}

/// Whether a hybrid share and secret are made of the encapsulation to the
/// client's key under some randomness, with an elliptic-curve answer to the rest of
/// the client's share behind them.
pub open spec fn is_hybrid_response(client_share: Seq<u8>, share: Seq<u8>, secret: Seq<u8>) -> bool {
    &&& is_encapsulation_key(client_share.take(1184))
    &&& exists|randomness: Seq<u8>|
        #[trigger] encapsulated(client_share.take(1184), randomness) == (
            share.take(1088),
            secret.take(32),
        )
    &&& exchanged(client_share.skip(1184), share.skip(1088), secret.skip(32))
}

/// Whether a share and a secret are a server's answer to a client's share.
pub open spec fn answers_share(group: KexGroup, client_share: Seq<u8>, share: Seq<u8>, secret: Seq<u8>) -> bool {
    &&& client_share.len() == client_share_len(group)
    &&& share.len() == server_share_len(group)
    &&& secret.len() == secret_len(group)
    &&& if group == KexGroup::X25519Mlkem768 {
        is_hybrid_response(client_share, share, secret)
    } else {
        exchanged(client_share, share, secret)
    }
}

/// Whether a client's share has nothing in common with some private key.
pub open spec fn is_refused(client_share: Seq<u8>) -> bool {
    exists|key: agreement::EphemeralPrivateKey| #[trigger] agreed_of(key, client_share) is None
}

/// Runs an elliptic-curve exchange as the server.
fn respond_classical(group: KexGroup, client_share: &[u8]) -> (r: Result<
    (Vec<u8>, SharedSecret),
    Error,
>)
    requires
        group != KexGroup::X25519Mlkem768,
    ensures
        match r {
            Ok((share, secret)) => answers_share(group, client_share@, share@, secret@),
            Err(e) => e == Error::Generate || e == Error::InvalidPubkey && is_refused(client_share@),
        },
{
    let ephemeral = match ring_generate(group.curve()) {
        Some(k) => k,
        None => return Err(Error::Generate),
    };
    let public = match ring_public_key(&ephemeral) {
        Some(p) => p,
        None => return Err(Error::Generate),
    };
    let ghost key = ephemeral;
    assert(public_of(key) == public@);
    let agreed = ring_agree(ephemeral, client_share);
    classical_response(group, public, agreed)
}

/// Runs a hybrid exchange as the server.
fn respond_hybrid(client_share: &[u8]) -> (r: Result<(Vec<u8>, SharedSecret), Error>)
    ensures
        client_share@.len() != MLKEM768_EK_LEN + X25519_LEN ==> r is Err && r->Err_0
            == Error::InvalidPubkey,
        !is_encapsulation_key(client_share@.take(1184)) ==> r is Err && r->Err_0 == Error::InvalidPubkey,
        match r {
            Ok((share, secret)) => answers_share(
                KexGroup::X25519Mlkem768,
                client_share@,
                share@,
                secret@,
            ),
            Err(e) => {
                ||| e == Error::Generate
                ||| e == Error::InvalidPubkey && (client_share@.len() != MLKEM768_EK_LEN + X25519_LEN
                    || !is_encapsulation_key(client_share@.take(1184)) || is_refused(
                    client_share@.skip(1184),
                ))
            },
        },
{
    if client_share.len() != MLKEM768_EK_LEN + X25519_LEN {
        return Err(Error::InvalidPubkey);
    }
    let ek_bytes = slice_subrange(client_share, 0, MLKEM768_EK_LEN);
    let x25519_client_pk = slice_subrange(client_share, MLKEM768_EK_LEN, client_share.len());
    assert(ek_bytes@ =~= client_share@.take(1184));
    assert(x25519_client_pk@ =~= client_share@.skip(1184));
    if !mlkem_is_key(ek_bytes) {
        return Err(Error::InvalidPubkey);
    }
    let randomness: [u8; 32] = match random_array::<32>() {
        Some(x) => x,
        None => return Err(Error::Generate),
    };
    let (ciphertext, mlkem_secret) = match mlkem_encapsulate(ek_bytes, randomness) {
        Some(x) => x,
        None => return Err(Error::Generate),
    };
    let x25519 = match ring_generate(Curve::X25519) {
        Some(k) => k,
        None => return Err(Error::Generate),
    };
    let public = match ring_public_key(&x25519) {
        Some(p) => p,
        None => return Err(Error::Generate),
    };
    let ghost key = x25519;
    assert(public_of(key) == public@);
    let agreed = ring_agree(x25519, x25519_client_pk);
    let r = hybrid_response(
        ciphertext.as_slice(),
        mlkem_secret.as_slice(),
        public.as_slice(),
        agreed,
    );
    proof {
        if r is Ok {
            let share = r->Ok_0.0@;
            let secret = r->Ok_0.1@;
            assert(share.take(1088) =~= ciphertext@);
            assert(share.skip(1088) =~= public@);
            assert(secret.take(32) =~= mlkem_secret@);
            assert(secret.skip(32) =~= agreed->0@);
            assert(encapsulated(client_share@.take(1184), randomness@) == (
                share.take(1088),
                secret.take(32),
            ));
        }
    }
    r
}

impl KexGroup {
    /// Answers a client's share: the server's share goes to `output`, which must
    /// have exactly its length. Where that fails `output` is unchanged.
    pub fn respond<'output>(self, client_share: &[u8], output: &'output mut [u8]) -> (r: Result<
        ServerResponse<'output>,
        Error,
    >)
        ensures
            self == KexGroup::X25519Mlkem768 && client_share@.len() != MLKEM768_EK_LEN + X25519_LEN ==> r
                is Err && r->Err_0 == Error::InvalidPubkey,
            !(self == KexGroup::X25519Mlkem768 && client_share@.len() != MLKEM768_EK_LEN + X25519_LEN) ==> (
            old(output)@.len() != server_share_len(self) <==> r is Err && r->Err_0
                == Error::InvalidOutput),
            self == KexGroup::X25519Mlkem768 && old(output)@.len() == server_share_len(self)
                && !is_encapsulation_key(client_share@.take(1184)) ==> r is Err && r->Err_0
                == Error::InvalidPubkey,
            match r {
                Ok(resp) => final(output)@ == resp@.share && answers_share(
                    self,
                    client_share@,
                    resp@.share,
                    resp@.secret,
                ),
                Err(e) => final(output)@ == old(output)@ && (e == Error::InvalidPubkey
                    ==> refuses_share(self, client_share@)),
            },
    {
        if self == KexGroup::X25519Mlkem768 && client_share.len() != MLKEM768_EK_LEN + X25519_LEN {
            return Err(Error::InvalidPubkey);
        }
        if output.len() != self.server_share_len() {
            return Err(Error::InvalidOutput);
        }
        let made = match self {
            KexGroup::X25519Mlkem768 => respond_hybrid(client_share),
            _ => respond_classical(self, client_share),
        };
        let (share, secret) = match made {
            Ok(x) => x,
            Err(e) => return Err(e),
        };
        let mut i: usize = 0;
        while i < share.len()
            invariant
                i <= share.len(),
                output@.len() == share@.len(),
                forall|j: int| 0 <= j < i ==> output@[j] == share@[j],
            decreases share.len() - i,
        {
            output[i] = share[i];
            i = i + 1;
        }
        assert(output@ =~= share@);
        Ok(ServerResponse { share: output, secret })
    }

    /// Answers a client's share with a share of its own and the shared secret.
    pub fn responder(self, client_share: &[u8]) -> (r: Result<(Vec<u8>, SharedSecret), Error>)
        ensures
            self == KexGroup::X25519Mlkem768 && (client_share@.len() != MLKEM768_EK_LEN + X25519_LEN
                || !is_encapsulation_key(client_share@.take(1184))) ==> r is Err && r->Err_0
                == Error::InvalidPubkey,
            match r {
                Ok((share, secret)) => answers_share(self, client_share@, share@, secret@),
                Err(e) => e == Error::Generate || e == Error::InvalidPubkey && refuses_share(
                    self,
                    client_share@,
                ),
            },
    {
        match self {
            KexGroup::X25519Mlkem768 => respond_hybrid(client_share),
            _ => respond_classical(self, client_share),
        }
    }
}

/// Whether there is a reason to refuse a client's share.
pub open spec fn refuses_share(group: KexGroup, client_share: Seq<u8>) -> bool {
    if group == KexGroup::X25519Mlkem768 {
        ||| client_share.len() != client_share_len(group)
        ||| !is_encapsulation_key(client_share.take(1184))
        ||| is_refused(client_share.skip(1184))
    } else {
        is_refused(client_share)
    }
}

/// The seed of an ML-KEM key pair, wiped on drop.
struct KemSeed {
    bytes: [u8; 64],
}

impl Drop for KemSeed {
    fn drop(&mut self)
        opens_invariants none
        no_unwind
    {
        let all: &mut [u8] = &mut self.bytes;
        wipe(all);
    }
}

/// The private half of an elliptic-curve exchange, and the share it goes with.
pub(crate) struct ClassicalMaterial {
    ecdhe: agreement::EphemeralPrivateKey,
    client_share: Vec<u8>,
}

/// The private half of a hybrid exchange.
pub(crate) struct HybridPrivate {
    x25519: agreement::EphemeralPrivateKey,
    seed: KemSeed,
}

/// What a client keeps until the server has answered.
pub(crate) enum Material {
    X25519(ClassicalMaterial),
    Secp256r1(ClassicalMaterial),
    Hybrid(HybridPrivate, Vec<u8>),
}

/// Initiator (client) key-exchange state: holds the private key(s) and exposes
/// the public `client_share` to put in the key_share extension.
pub struct EphemeralKey {
    material: Material,
}

/// The group and share of a client's half of an exchange, its elliptic-curve private
/// key, and for a hybrid exchange the seed of its encapsulation key.
pub struct EphemeralKeyView {
    pub group: KexGroup,
    pub share: Seq<u8>,
    pub private: agreement::EphemeralPrivateKey,
    pub seed: Option<Seq<u8>>,
}

impl View for EphemeralKey {
    type V = EphemeralKeyView;

    closed spec fn view(&self) -> EphemeralKeyView {
        match self.material {
            Material::X25519(m) => EphemeralKeyView {
                group: KexGroup::X25519,
                share: m.client_share@,
                private: m.ecdhe,
                seed: None,
            },
            Material::Secp256r1(m) => EphemeralKeyView {
                group: KexGroup::Secp256r1,
                share: m.client_share@,
                private: m.ecdhe,
                seed: None,
            },
            Material::Hybrid(p, share) => EphemeralKeyView {
                group: KexGroup::X25519Mlkem768,
                share: share@,
                private: p.x25519,
                seed: Some(p.seed.bytes@),
            },
        }
    }
}

/// The share that a client of an elliptic-curve exchange sends, out of its public
/// key.
pub fn classical_client_share(public: Vec<u8>) -> (r: Result<Vec<u8>, Error>)
    ensures
        public@.len() > P256_LEN ==> r is Err && r->Err_0 == Error::Generate,
        public@.len() <= P256_LEN ==> r is Ok && r->Ok_0@ == public@,
{
    if public.len() > P256_LEN {
        return Err(Error::Generate);
    }
    Ok(public)
}

/// The share that a client of a hybrid exchange sends, out of its encapsulation key
/// and its public key.
pub fn hybrid_client_share(encapsulation_key: Vec<u8>, public: &[u8]) -> (r: Result<Vec<u8>, Error>)
    ensures
        public@.len() > X25519_LEN ==> r is Err && r->Err_0 == Error::Generate,
        public@.len() <= X25519_LEN ==> r is Ok && r->Ok_0@ == encapsulation_key@ + public@,
{
    if public.len() > X25519_LEN {
        return Err(Error::Generate);
    }
    let mut share = encapsulation_key;
    put_slice(&mut share, public);
    Ok(share)
}

fn generate_classical(group: KexGroup) -> (r: Result<ClassicalMaterial, Error>)
    ensures
        r matches Ok(m) ==> {
            &&& m.client_share@ == public_of(m.ecdhe)
            &&& group != KexGroup::X25519Mlkem768 ==> m.client_share@.len() == client_share_len(group)
        },
        r is Err ==> r->Err_0 == Error::Generate,
{
    let ecdhe = match ring_generate(group.curve()) {
        Some(k) => k,
        None => return Err(Error::Generate),
    };
    let public = match ring_public_key(&ecdhe) {
        Some(p) => p,
        None => return Err(Error::Generate),
    };
    let client_share = classical_client_share(public)?;
    Ok(ClassicalMaterial { ecdhe, client_share })
}

fn generate_hybrid() -> (r: Result<(HybridPrivate, Vec<u8>), Error>)
    ensures
        r matches Ok((p, share)) ==> {
            &&& share@.len() == MAX_CLIENT_SHARE_LEN
            &&& share@.take(1184) == encapsulation_key(p.seed.bytes@)
            &&& share@.skip(1184) == public_of(p.x25519)
        },
        r is Err ==> r->Err_0 == Error::Generate,
{
    let seed: [u8; 64] = match random_array::<64>() {
        Some(x) => x,
        None => return Err(Error::Generate),
    };
    let ek = mlkem_encapsulation_key(seed);
    let x25519 = match ring_generate(Curve::X25519) {
        Some(k) => k,
        None => return Err(Error::Generate),
    };
    let public = match ring_public_key(&x25519) {
        Some(p) => p,
        None => return Err(Error::Generate),
    };
    let client_share = hybrid_client_share(ek, public.as_slice())?;
    assert(client_share@.take(1184) =~= encapsulation_key(seed@));
    assert(client_share@.skip(1184) =~= public@);
    Ok((HybridPrivate { x25519, seed: KemSeed { bytes: seed } }, client_share))
}

fn agree_classical(material: ClassicalMaterial, server_share: &[u8]) -> (r: Result<SharedSecret, Error>)
    ensures
        match agreed_of(material.ecdhe, server_share@) {
            Some(s) => r is Ok && r->Ok_0@ == s && s.len() == 32,
            None => r is Err && r->Err_0 == Error::InvalidPubkey,
        },
        server_share@.len() != public_of(material.ecdhe).len() ==> r is Err,
{
    match ring_agree(material.ecdhe, server_share) {
        Some(s) => Ok(SharedSecret::from_slice(s.as_slice())),
        None => Err(Error::InvalidPubkey),
    }
}

fn agree_hybrid(private: HybridPrivate, server_share: &[u8]) -> (r: Result<SharedSecret, Error>)
    ensures
        server_share@.len() != MLKEM768_CT_LEN + X25519_LEN ==> r is Err && r->Err_0
            == Error::InvalidPubkey,
        server_share@.len() == MLKEM768_CT_LEN + X25519_LEN ==> match agreed_of(
            private.x25519,
            server_share@.skip(1088),
        ) {
            Some(s) => r is Ok && r->Ok_0@ == decapsulated(
                private.seed.bytes@,
                server_share@.take(1088),
            ) + s && r->Ok_0@.len() == 64,
            None => r is Err && r->Err_0 == Error::InvalidPubkey,
        },
{
    if server_share.len() != MLKEM768_CT_LEN + X25519_LEN {
        return Err(Error::InvalidPubkey);
    }
    let ct_bytes = slice_subrange(server_share, 0, MLKEM768_CT_LEN);
    let x25519_server_pk = slice_subrange(server_share, MLKEM768_CT_LEN, server_share.len());
    assert(ct_bytes@ =~= server_share@.take(1088));
    assert(x25519_server_pk@ =~= server_share@.skip(1088));
    let mlkem_ss = match mlkem_decapsulate(private.seed.bytes, ct_bytes) {
        Some(s) => s,
        None => return Err(Error::InvalidPubkey),
    };
    match ring_agree(private.x25519, x25519_server_pk) {
        Some(s) => Ok(SharedSecret::from_parts(mlkem_ss.as_slice(), s.as_slice())),
        None => Err(Error::InvalidPubkey),
    }
}

/// The secret that a client's half of an exchange has in common with a server's
/// share; nothing where that is invalid.
pub open spec fn agreed_secret(k: EphemeralKeyView, server_share: Seq<u8>) -> Option<Seq<u8>> {
    if server_share.len() != server_share_len(k.group) {
        None
    } else if k.group == KexGroup::X25519Mlkem768 {
        match agreed_of(k.private, server_share.skip(1088)) {
            Some(s) => Some(decapsulated(k.seed->0, server_share.take(1088)) + s),
            None => None,
        }
    } else {
        agreed_of(k.private, server_share)
    }
}

/// Whether a client's share goes with its group and its private half.
pub open spec fn is_client_share(k: EphemeralKeyView) -> bool {
    &&& k.share.len() == client_share_len(k.group)
    &&& if k.group == KexGroup::X25519Mlkem768 {
        &&& k.seed is Some
        &&& k.share.take(1184) == encapsulation_key(k.seed->0)
        &&& k.share.skip(1184) == public_of(k.private)
    } else {
        k.share == public_of(k.private)
    }
}

/// Both sides get the same secret: what a server has after its answer to a client's
/// share is what the client gets out of that answer. In a hybrid exchange this is so
/// of the elliptic-curve half, and of the whole secret wherever the client's key
/// pair takes the secret out of the ciphertext that was put in.
pub proof fn law_both_sides_agree(k: EphemeralKeyView, share: Seq<u8>, secret: Seq<u8>)
    requires
        is_client_share(k),
        answers_share(k.group, k.share, share, secret),
    ensures
        k.group != KexGroup::X25519Mlkem768 ==> agreed_secret(k, share) == Some(secret),
        k.group == KexGroup::X25519Mlkem768 ==> agreed_secret(k, share) == Some(
            decapsulated(k.seed->0, share.take(1088)) + secret.skip(32),
        ),
        k.group == KexGroup::X25519Mlkem768 && decapsulated(k.seed->0, share.take(1088)) == secret.take(
            32,
        ) ==> agreed_secret(k, share) == Some(secret),
{
    assert(public_of(k.private) == public_of(k.private));
    if k.group == KexGroup::X25519Mlkem768 {
        assert(secret.take(32) + secret.skip(32) =~= secret);
    }
}

impl EphemeralKey {
    #[verifier::type_invariant]
    spec fn valid(self) -> bool {
        is_client_share(self@)
    }

    /// A fresh half of an exchange in `group`.
    pub fn generate(group: KexGroup) -> (r: Result<Self, Error>)
        ensures
            r matches Ok(k) ==> k@.group == group && is_client_share(k@),
            r is Err ==> r->Err_0 == Error::Generate,
    {
        let material = match group {
            KexGroup::X25519 => Material::X25519(generate_classical(group)?),
            KexGroup::Secp256r1 => Material::Secp256r1(generate_classical(group)?),
            KexGroup::X25519Mlkem768 => {
                let (private, client_share) = generate_hybrid()?;
                Material::Hybrid(private, client_share)
            },
        };
        Ok(Self { material })
    }

    /// The group of the exchange.
    pub fn group(&self) -> (r: KexGroup)
        ensures
            r == self@.group,
    {
        match &self.material {
            Material::X25519(_) => KexGroup::X25519,
            Material::Secp256r1(_) => KexGroup::Secp256r1,
            Material::Hybrid(_, _) => KexGroup::X25519Mlkem768,
        }
    }

    /// What the client sends.
    pub fn client_share(&self) -> (r: &[u8])
        ensures
            r@ == self@.share,
    {
        match &self.material {
            Material::X25519(m) => m.client_share.as_slice(),
            Material::Secp256r1(m) => m.client_share.as_slice(),
            Material::Hybrid(_, share) => share.as_slice(),
        }
    }

    /// Consumes the initiator state and combines it with the server's share to
    /// produce the shared secret (32 bytes classical, 64 bytes hybrid).
    pub fn agree(self, server_share: &[u8]) -> (r: Result<SharedSecret, Error>)
        ensures
            match agreed_secret(self@, server_share@) {
                Some(s) => r is Ok && r->Ok_0@ == s && s.len() == secret_len(self@.group),
                None => r is Err && r->Err_0 == Error::InvalidPubkey,
            },
    {
        proof {
            use_type_invariant(&self);
        }
        match self.material {
            Material::X25519(m) => agree_classical(m, server_share),
            Material::Secp256r1(m) => agree_classical(m, server_share),
            Material::Hybrid(p, _) => agree_hybrid(p, server_share),
        }
    }

    /// A copy of what the client sends.
    pub(crate) fn share_copy(&self) -> (r: Vec<u8>)
        ensures
            r@ == self@.share,
    {
        to_vec(self.client_share())
    }
}

/// Opt-in caller-owned storage for a client's half of a key exchange.
pub struct HybridWorkspace {
    material: Option<EphemeralKey>,
}

impl View for HybridWorkspace {
    type V = Option<EphemeralKeyView>;

    closed spec fn view(&self) -> Option<EphemeralKeyView> {
        match self.material {
            Some(k) => Some(k@),
            None => None,
        }
    }
}

impl HybridWorkspace {
    /// A workspace that holds nothing.
    pub fn new() -> (r: Self)
        ensures
            r@ is None,
    {
        Self { material: None }
    }

    /// Forgets what the workspace holds.
    pub fn clear(&mut self)
        ensures
            final(self)@ is None,
    {
        self.material = None;
    }

    /// Puts a fresh half of an exchange in the workspace.
    pub fn generate(&mut self, group: KexGroup) -> (r: Result<Vec<u8>, Error>)
        ensures
            match r {
                Ok(share) => final(self)@ matches Some(k) && k.group == group && k.share == share@
                    && is_client_share(k),
                Err(e) => final(self)@ is None && e == Error::Generate,
            },
    {
        self.material = None;
        let key = EphemeralKey::generate(group)?;
        let share = key.share_copy();
        self.material = Some(key);
        Ok(share)
    }

    /// The group of what the workspace holds.
    pub fn pending_group(&self) -> (r: Option<KexGroup>)
        ensures
            r == match self@ {
                Some(k) => Some(k.group),
                None => None,
            },
    {
        match &self.material {
            Some(k) => Some(k.group()),
            None => None,
        }
    }

    /// Takes what the workspace holds and combines it with the server's share.
    pub fn agree(&mut self, server_share: &[u8]) -> (r: Result<SharedSecret, Error>)
        ensures
            final(self)@ is None,
            old(self)@ is None ==> r is Err && r->Err_0 == Error::Generate,
            old(self)@ matches Some(k) ==> match agreed_secret(k, server_share@) {
                Some(s) => r is Ok && r->Ok_0@ == s && s.len() == secret_len(k.group),
                None => r is Err && r->Err_0 == Error::InvalidPubkey,
            },
    {
        match self.material.take() {
            Some(key) => key.agree(server_share),
            None => Err(Error::Generate),
        }
    }
}

impl Default for HybridWorkspace {
    fn default() -> (r: Self)
        ensures
            r@ is None,
    {
        Self::new()
    }
}

} // verus!
