//! Hash functions, hash-sized values, and the running handshake transcript.

use ring::digest;
use ring::digest::Context as Hashing;
use vstd::prelude::*;
use vstd::slice::slice_subrange;
use vstd::std_specs::cmp::PartialEqSpecImpl;

use crate::codec::{bytes_eq, put_slice, to_array};

verus! {

pub const SHA256_LEN: usize = 32;

pub const SHA384_LEN: usize = 48;

/// Largest hash output handled (SHA-384). Fixed-size secret buffers use this so
/// one inline type spans both SHA-256 (32) and SHA-384 (48) suites.
pub const MAX_LEN: usize = 48;

/// The transcript / key-schedule hash a cipher suite ties to.
#[derive(Debug, Clone, Copy, PartialEq, Eq, Structural)]
pub enum Algorithm {
    Sha256,
    Sha384,
}

/// How long a hash is, in bytes.
pub open spec fn hash_len(alg: Algorithm) -> nat {
    match alg {
        Algorithm::Sha256 => 32,
        Algorithm::Sha384 => 48,
    }
}

/// Whether `s` is short enough to hash: the hash counts bits in 64 bits, and
/// keeps a block in reserve for a key.
pub open spec fn hashable(s: Seq<u8>) -> bool {
    s.len() <= 0x1000_0000_0000_0000
}

/// The hash of `data`.
pub uninterp spec fn digest_of(alg: Algorithm, data: Seq<u8>) -> Seq<u8>;

/// What a digest context has been fed.
pub uninterp spec fn absorbed(c: Hashing) -> Seq<u8>;

/// The hash that a digest context computes.
pub uninterp spec fn absorbing(c: Hashing) -> Algorithm;

#[verifier::external_type_specification]
#[verifier::external_body]
pub struct ExDigestContext(Hashing);

/// `ring::digest::digest`: the hash of `data`, which is a function of the
/// algorithm and the data and has the algorithm's length. It panics on more than
/// 2^61 - 1 bytes, which are left out.
#[verifier::external_body]
fn ring_digest(alg: Algorithm, data: &[u8]) -> (r: Vec<u8>)
    requires
        hashable(data@),
    ensures
        r@ == digest_of(alg, data@),
        r@.len() == hash_len(alg),
{
    let algorithm = match alg {
        Algorithm::Sha256 => &digest::SHA256,
        Algorithm::Sha384 => &digest::SHA384,
    };
    digest::digest(algorithm, data).as_ref().to_vec()
}

/// `ring::digest::Context::new`: a context for `alg` that was fed nothing.
#[verifier::external_body]
fn ring_context(alg: Algorithm) -> (c: Hashing)
    ensures
        absorbed(c) == Seq::<u8>::empty(),
        absorbing(c) == alg,
{
    match alg {
        Algorithm::Sha256 => Hashing::new(&digest::SHA256),
        Algorithm::Sha384 => Hashing::new(&digest::SHA384),
    }
}

/// `ring::digest::Context::update`: feeds `data` to the context behind what it
/// was fed before.
pub assume_specification[ Hashing::update ](c: &mut Hashing, data: &[u8])
    ensures
        absorbed(*final(c)) == absorbed(*old(c)) + data@,
        absorbing(*final(c)) == absorbing(*old(c)),
;

/// The derived `Clone` of `ring::digest::Context`: a context that was fed the
/// same, for the same hash.
pub assume_specification[ <Hashing as Clone>::clone ](c: &Hashing) -> (r: Hashing)
    ensures
        absorbed(r) == absorbed(*c),
        absorbing(r) == absorbing(*c),
;

/// `ring::digest::Context::finish`: the hash of everything the context was fed,
/// the same as that of `ring::digest::digest` on those bytes. It panics on more
/// than 2^61 - 1 bytes, which are left out.
#[verifier::external_body]
fn ring_finish(c: Hashing) -> (r: Vec<u8>)
    requires
        hashable(absorbed(c)),
    ensures
        r@ == digest_of(absorbing(c), absorbed(c)),
        r@.len() == hash_len(absorbing(c)),
{
    c.finish().as_ref().to_vec()
}

impl Algorithm {
    /// How long a hash is, in bytes.
    pub fn output_len(self) -> (r: usize)
        ensures
            r == hash_len(self),
    {
        match self {
            Algorithm::Sha256 => SHA256_LEN,
            Algorithm::Sha384 => SHA384_LEN,
        }
    }

    /// The hash of `data`.
    pub fn hash(self, data: &[u8]) -> (r: Digest)
        requires
            hashable(data@),
        ensures
            r@ == digest_of(self, data@),
            r@.len() == hash_len(self),
    {
        let out = ring_digest(self, data);
        Digest::from_slice(out.as_slice())
    }
}

/// The SHA-256 hash of `data`.
pub fn sha256(data: &[u8]) -> (r: [u8; SHA256_LEN])
    requires
        hashable(data@),
    ensures
        r@ == digest_of(Algorithm::Sha256, data@),
{
    let out = ring_digest(Algorithm::Sha256, data);
    to_array(out.as_slice())
}

/// A byte string was too long to fit in a hash or secret value.
#[derive(Debug, Clone, Copy, PartialEq, Eq, Structural)]
pub struct LengthError {
    pub actual: usize,
    pub maximum: usize,
}

/// A hash output of up to [`MAX_LEN`] bytes, carrying its true length so SHA-256
/// and SHA-384 share one inline, heap-free type.
#[derive(Clone, Copy)]
pub struct Digest {
    bytes: [u8; MAX_LEN],
    len: usize,
}

impl View for Digest {
    type V = Seq<u8>;

    closed spec fn view(&self) -> Seq<u8> {
        self.bytes@.take(self.len as int)
    }
}

impl Digest {
    #[verifier::type_invariant]
    spec fn valid(self) -> bool {
        self.len <= MAX_LEN
    }

    /// Copies a checked, variable-length hash value.
    pub fn try_from_slice(s: &[u8]) -> (r: Result<Self, LengthError>)
        ensures
            s.len() <= MAX_LEN ==> r is Ok && r->Ok_0@ == s@,
            s.len() > MAX_LEN ==> r == Err::<Self, LengthError>(
                LengthError { actual: s.len(), maximum: MAX_LEN },
            ),
    {
        if s.len() > MAX_LEN {
            return Err(LengthError { actual: s.len(), maximum: MAX_LEN });
        }
        Ok(Self::from_slice(s))
    }

    /// Copies a hash value that fits.
    pub fn from_slice(s: &[u8]) -> (r: Self)
        requires
            s.len() <= MAX_LEN,
        ensures
            r@ == s@,
    {
        let bytes = padded(s);
        let r = Self { bytes, len: s.len() };
        assert(r@ =~= s@);
        r
    }

    /// The bytes.
    pub fn as_slice(&self) -> (r: &[u8])
        ensures
            r@ == self@,
            r@.len() <= MAX_LEN,
    {
        proof {
            use_type_invariant(self);
        }
        let r = slice_subrange(&self.bytes, 0, self.len);
        assert(r@ =~= self@);
        r
    }

    /// The bytes, to be changed in place.
    pub fn as_mut_slice(&mut self) -> (r: &mut [u8])
        ensures
            r@ == old(self)@,
            final(self)@ == final(r)@,
    {
        proof {
            use_type_invariant(&*self);
        }
        let n: usize = self.len;
        let all: &mut [u8] = &mut self.bytes;
        let (head, tail) = all.split_at_mut(n);
        assert(final(head)@ =~= (final(head)@ + tail@).take(n as int));
        head
    }

    /// How many bytes there are.
    pub fn len(&self) -> (r: usize)
        ensures
            r == self@.len(),
            r <= MAX_LEN,
    {
        proof {
            use_type_invariant(self);
        }
        self.len
    }

    /// Whether there are none.
    pub fn is_empty(&self) -> (r: bool)
        ensures
            r == (self@.len() == 0),
    {
        proof {
            use_type_invariant(self);
        }
        self.len == 0
    }
}

impl PartialEq for Digest {
    fn eq(&self, other: &Self) -> (r: bool) {
        bytes_eq(self.as_slice(), other.as_slice())
    }
}

impl PartialEqSpecImpl for Digest {
    open spec fn obeys_eq_spec() -> bool {
        true
    }

    open spec fn eq_spec(&self, other: &Self) -> bool {
        self@ == other@
    }
}

impl Eq for Digest {

}

/// `zeroize` on a byte slice: every byte becomes zero, and nothing else changes.
#[verifier::external_body]
pub(crate) fn wipe(bytes: &mut [u8])
    ensures
        final(bytes)@ == Seq::new(old(bytes)@.len(), |i: int| 0u8),
    opens_invariants none
    no_unwind
{
    zeroize::Zeroize::zeroize(bytes);
}

/// Key-schedule secret of up to [`MAX_LEN`] bytes. Intentionally not `Copy` (so
/// secret bytes are never silently duplicated) and wiped on drop; [`Digest`]
/// stays `Copy` for public transcript hashes that need neither.
pub struct Secret {
    bytes: [u8; MAX_LEN],
    len: usize,
}

impl View for Secret {
    type V = Seq<u8>;

    closed spec fn view(&self) -> Seq<u8> {
        self.bytes@.take(self.len as int)
    }
}

impl Drop for Secret {
    fn drop(&mut self)
        opens_invariants none
        no_unwind
    {
        proof {
            use_type_invariant(&*self);
        }
        let all: &mut [u8] = &mut self.bytes;
        wipe(all);
    }
}

impl Secret {
    #[verifier::type_invariant]
    spec fn valid(self) -> bool {
        self.len <= MAX_LEN
    }

    /// A secret of `len` zero bytes.
    pub fn zeroed(len: usize) -> (r: Result<Self, LengthError>)
        ensures
            len <= MAX_LEN ==> r is Ok && r->Ok_0@ == Seq::new(len as nat, |i: int| 0u8),
            len > MAX_LEN ==> r is Err && r->Err_0 == (LengthError { actual: len, maximum: MAX_LEN }),
    {
        if len > MAX_LEN {
            return Err(LengthError { actual: len, maximum: MAX_LEN });
        }
        let r = Self { bytes: [0u8; MAX_LEN], len };
        assert(r@ =~= Seq::new(len as nat, |i: int| 0u8));
        Ok(r)
    }

    /// Copies a checked, variable-length key-schedule secret.
    pub fn try_from_slice(s: &[u8]) -> (r: Result<Self, LengthError>)
        ensures
            s.len() <= MAX_LEN ==> r is Ok && r->Ok_0@ == s@,
            s.len() > MAX_LEN ==> r is Err && r->Err_0 == (LengthError {
                actual: s.len(),
                maximum: MAX_LEN,
            }),
    {
        if s.len() > MAX_LEN {
            return Err(LengthError { actual: s.len(), maximum: MAX_LEN });
        }
        Ok(Self::from_slice(s))
    }

    /// Copies a secret that fits.
    pub fn from_slice(s: &[u8]) -> (r: Self)
        requires
            s.len() <= MAX_LEN,
        ensures
            r@ == s@,
    {
        let bytes = padded(s);
        let r = Self { bytes, len: s.len() };
        assert(r@ =~= s@);
        r
    }

    /// The bytes.
    pub fn as_slice(&self) -> (r: &[u8])
        ensures
            r@ == self@,
            r@.len() <= MAX_LEN,
    {
        proof {
            use_type_invariant(self);
        }
        let r = slice_subrange(&self.bytes, 0, self.len);
        assert(r@ =~= self@);
        r
    }

    /// The bytes, to be changed in place.
    pub fn as_mut_slice(&mut self) -> (r: &mut [u8])
        ensures
            r@ == old(self)@,
            final(self)@ == final(r)@,
    {
        proof {
            use_type_invariant(&*self);
        }
        let n: usize = self.len;
        let all: &mut [u8] = &mut self.bytes;
        let (head, tail) = all.split_at_mut(n);
        assert(final(head)@ =~= (final(head)@ + tail@).take(n as int));
        head
    }

    /// How many bytes there are.
    pub fn len(&self) -> (r: usize)
        ensures
            r == self@.len(),
            r <= MAX_LEN,
    {
        proof {
            use_type_invariant(self);
        }
        self.len
    }

    /// Whether there are none.
    pub fn is_empty(&self) -> (r: bool)
        ensures
            r == (self@.len() == 0),
    {
        proof {
            use_type_invariant(self);
        }
        self.len == 0
    }

    /// A copy of the bytes that may itself be copied.
    pub fn to_digest(&self) -> (r: Digest)
        ensures
            r@ == self@,
    {
        Digest::from_slice(self.as_slice())
    }
}

/// The bytes of `s` and zeros behind them.
fn padded(s: &[u8]) -> (r: [u8; MAX_LEN])
    requires
        s.len() <= MAX_LEN,
    ensures
        r@.take(s.len() as int) == s@,
{
    let mut r: [u8; MAX_LEN] = [0u8; MAX_LEN];
    let mut i: usize = 0;
    while i < s.len()
        invariant
            i <= s.len() <= MAX_LEN,
            r@.len() == MAX_LEN,
            forall|j: int| 0 <= j < i ==> r@[j] == s@[j],
        decreases s.len() - i,
    {
        r[i] = s[i];
        i = i + 1;
    }
    assert(r@.take(s.len() as int) =~= s@);
    r
}

/// A context, where there is one, that was fed `msg` as well.
fn fed(context: &Option<Hashing>, msg: &[u8]) -> (r: Option<Hashing>)
    ensures
        match *context {
            Some(c) => r matches Some(d) && absorbed(d) == absorbed(c) + msg@ && absorbing(d)
                == absorbing(c),
            None => r is None,
        },
{
    match context {
        Some(c) => {
            let mut d = c.clone();
            d.update(msg);
            Some(d)
        },
        None => None,
    }
}

/// A transcript operation was inconsistent with the negotiated hash.
#[derive(Debug, Clone, Copy, PartialEq, Eq, Structural)]
pub enum TranscriptError {
    /// The transcript was already committed to a different algorithm.
    AlgorithmMismatch { selected: Algorithm, requested: Algorithm },
    /// An HRR `message_hash` digest did not have the selected algorithm's size.
    DigestLengthMismatch { algorithm: Algorithm, actual: usize, expected: usize },
}

/// Running handshake transcript. Both hashes advance until [`select`](Self::select);
/// subsequent updates advance one context.
pub struct Transcript {
    sha256: Option<Hashing>,
    sha384: Option<Hashing>,
}

/// What a transcript stands for: the messages so far, one behind another, and
/// the hash it has been committed to.
pub struct TranscriptView {
    pub messages: Seq<u8>,
    pub selected: Option<Algorithm>,
}

/// The synthetic message that stands for a first ClientHello after a retry was
/// asked for.
pub open spec fn message_hash(digest: Seq<u8>) -> Seq<u8> {
    seq![0xfeu8, 0, 0, digest.len() as u8] + digest
}

impl View for Transcript {
    type V = TranscriptView;

    closed spec fn view(&self) -> TranscriptView {
        TranscriptView {
            messages: match self.sha256 {
                Some(c) => absorbed(c),
                None => absorbed(self.sha384->0),
            },
            selected: match (self.sha256, self.sha384) {
                (Some(_), Some(_)) => None,
                (Some(_), None) => Some(Algorithm::Sha256),
                _ => Some(Algorithm::Sha384),
            },
        }
    }
}

impl Transcript {
    #[verifier::type_invariant]
    spec fn valid(self) -> bool {
        &&& self.sha256 is Some || self.sha384 is Some
        &&& self.sha256 matches Some(c) ==> absorbing(c) == Algorithm::Sha256
        &&& self.sha384 matches Some(c) ==> absorbing(c) == Algorithm::Sha384
        &&& self.sha256 is Some && self.sha384 is Some ==> absorbed(self.sha256->0) == absorbed(
            self.sha384->0,
        )
    }

    /// An empty transcript, committed to no hash.
    pub fn new() -> (r: Self)
        ensures
            r@.messages == Seq::<u8>::empty(),
            r@.selected is None,
    {
        Self {
            sha256: Some(ring_context(Algorithm::Sha256)),
            sha384: Some(ring_context(Algorithm::Sha384)),
        }
    }

    /// A transcript that starts where this one is.
    pub fn fork(&self) -> (r: Self)
        ensures
            r@ == self@,
    {
        proof {
            use_type_invariant(self);
        }
        let sha256 = match &self.sha256 {
            Some(c) => Some(c.clone()),
            None => None,
        };
        let sha384 = match &self.sha384 {
            Some(c) => Some(c.clone()),
            None => None,
        };
        Self { sha256, sha384 }
    }

    /// Commits to one hash. Repeating it is idempotent; selecting another
    /// algorithm is rejected instead of switching to a divergent transcript.
    pub fn select(&mut self, algorithm: Algorithm) -> (r: Result<(), TranscriptError>)
        ensures
            final(self)@.messages == old(self)@.messages,
            match old(self)@.selected {
                None => r is Ok && final(self)@.selected == Some(algorithm),
                Some(s) => {
                    &&& final(self)@.selected == Some(s)
                    &&& s == algorithm ==> r is Ok
                    &&& s != algorithm ==> r == Err::<(), TranscriptError>(
                        TranscriptError::AlgorithmMismatch { selected: s, requested: algorithm },
                    )
                },
            },
    {
        proof {
            use_type_invariant(&*self);
        }
        match self.selected() {
            None => {
                match algorithm {
                    Algorithm::Sha256 => {
                        self.sha384 = None;
                    },
                    Algorithm::Sha384 => {
                        self.sha256 = None;
                    },
                }
                Ok(())
            },
            Some(selected) => if selected == algorithm {
                Ok(())
            } else {
                Err(TranscriptError::AlgorithmMismatch { selected, requested: algorithm })
            },
        }
    }

    /// The hash the transcript is committed to.
    pub fn selected(&self) -> (r: Option<Algorithm>)
        ensures
            r == self@.selected,
    {
        proof {
            use_type_invariant(self);
        }
        if self.sha256.is_some() && self.sha384.is_some() {
            None
        } else if self.sha256.is_some() {
            Some(Algorithm::Sha256)
        } else {
            Some(Algorithm::Sha384)
        }
    }

    /// Adds a message.
    pub fn update(&mut self, msg: &[u8])
        ensures
            final(self)@.messages == old(self)@.messages + msg@,
            final(self)@.selected == old(self)@.selected,
    {
        proof {
            use_type_invariant(&*self);
        }
        let sha256 = fed(&self.sha256, msg);
        let sha384 = fed(&self.sha384, msg);
        *self = Self { sha256, sha384 };
    }

    /// The hash of the messages so far under `algorithm`.
    pub fn hash(&self, algorithm: Algorithm) -> (r: Result<Digest, TranscriptError>)
        requires
            hashable(self@.messages),
        ensures
            self@.selected is None || self@.selected == Some(algorithm) ==> r is Ok && r->Ok_0@
                == digest_of(algorithm, self@.messages) && r->Ok_0@.len() == hash_len(algorithm),
            self@.selected matches Some(s) ==> s != algorithm ==> r == Err::<Digest, TranscriptError>(
                TranscriptError::AlgorithmMismatch { selected: s, requested: algorithm },
            ),
    {
        proof {
            use_type_invariant(self);
        }
        match self.selected() {
            Some(selected) => {
                if selected != algorithm {
                    return Err(
                        TranscriptError::AlgorithmMismatch { selected, requested: algorithm },
                    );
                }
            },
            None => {},
        }
        let context = match algorithm {
            Algorithm::Sha256 => self.sha256.as_ref().unwrap(),
            Algorithm::Sha384 => self.sha384.as_ref().unwrap(),
        };
        let out = ring_finish(context.clone());
        Ok(Digest::from_slice(out.as_slice()))
    }

    /// The hash of no messages.
    pub fn hash_empty(alg: Algorithm) -> (r: Digest)
        ensures
            r@ == digest_of(alg, Seq::<u8>::empty()),
            r@.len() == hash_len(alg),
    {
        let none: [u8; 0] = [];
        assert(none@ =~= Seq::<u8>::empty());
        alg.hash(&none)
    }

    /// After a HelloRetryRequest the transcript restarts as
    /// `message_hash(ClientHello1)` (type 0xFE), then HRR and ClientHello2 follow.
    /// `client_hello1` is the digest of ClientHello1 under the negotiated hash.
    pub fn restart_with_message_hash(algorithm: Algorithm, client_hello1: &Digest) -> (r: Result<
        Self,
        TranscriptError,
    >)
        ensures
            client_hello1@.len() == hash_len(algorithm) ==> r is Ok && r->Ok_0@.messages == message_hash(
                client_hello1@) && r->Ok_0@.selected == Some(algorithm),
            client_hello1@.len() != hash_len(algorithm) ==> r is Err && r->Err_0
                == (TranscriptError::DigestLengthMismatch {
                algorithm,
                actual: client_hello1@.len() as usize,
                expected: hash_len(algorithm) as usize,
            }),
    {
        if client_hello1.len() != algorithm.output_len() {
            return Err(
                TranscriptError::DigestLengthMismatch {
                    algorithm,
                    actual: client_hello1.len(),
                    expected: algorithm.output_len(),
                },
            );
        }
        let mut t = Self::new();
        let selected = t.select(algorithm);
        assert(selected is Ok);
        let mut synthetic: Vec<u8> = vec![0xfe, 0x00, 0x00, client_hello1.len() as u8];
        put_slice(&mut synthetic, client_hello1.as_slice());
        assert(synthetic@ =~= message_hash(client_hello1@));
        t.update(synthetic.as_slice());
        assert(t@.messages =~= message_hash(client_hello1@));
        Ok(t)
    }
}

impl Default for Transcript {
    fn default() -> (r: Self)
        ensures
            r@.messages == Seq::<u8>::empty(),
            r@.selected is None,
    {
        Self::new()
    }
}

} // verus!
