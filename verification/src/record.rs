//! The TLS record layer: framing, and protection under a traffic secret.

use core::ops::Range;

use vstd::prelude::*;
use vstd::slice::slice_subrange;
use vstd::std_specs::convert::FromSpecImpl;

use crate::codec::{be16, from_be16, put_slice, put_u16, to_vec};
use crate::crypto::aead::{
    key_len, nonce_for, opened, sealed, AeadAlgorithm, AeadError, AeadKey, AeadKeyView,
};
use crate::crypto::hash::{hashable, Algorithm};
use crate::crypto::kdf::{lemma_label_lengths, HkdfError};
use crate::crypto::schedule::{traffic_iv, traffic_key, TrafficKeys};

verus! {

pub const PROTOCOL_VERSION: u16 = 0x0303;

/// A cipher suite: a record cipher and a key-schedule hash.
#[derive(Debug, Clone, Copy, PartialEq, Eq, Structural)]
pub enum CipherSuite {
    Aes128GcmSha256,
    ChaCha20Poly1305Sha256,
    Aes256GcmSha384,
}

/// A suite's code point.
pub open spec fn suite_id(s: CipherSuite) -> u16 {
    match s {
        CipherSuite::Aes128GcmSha256 => 0x1301,
        CipherSuite::ChaCha20Poly1305Sha256 => 0x1303,
        CipherSuite::Aes256GcmSha384 => 0x1302,
    }
}

/// The hash a suite ties to.
pub open spec fn suite_hash(s: CipherSuite) -> Algorithm {
    match s {
        CipherSuite::Aes256GcmSha384 => Algorithm::Sha384,
        _ => Algorithm::Sha256,
    }
}

/// The record cipher of a suite.
pub open spec fn suite_cipher(s: CipherSuite) -> AeadAlgorithm {
    match s {
        CipherSuite::Aes128GcmSha256 => AeadAlgorithm::Aes128Gcm,
        CipherSuite::ChaCha20Poly1305Sha256 => AeadAlgorithm::ChaCha20Poly1305,
        CipherSuite::Aes256GcmSha384 => AeadAlgorithm::Aes256Gcm,
    }
}

impl CipherSuite {
    /// Server preference order (AES-128 first keeps embedders that hardcode it
    /// interoperable).
    pub const SUPPORTED: [CipherSuite; 3] = [
        CipherSuite::Aes128GcmSha256,
        CipherSuite::ChaCha20Poly1305Sha256,
        CipherSuite::Aes256GcmSha384,
    ];

    /// The suite with code point `v`.
    pub fn from_u16(v: u16) -> (r: Option<Self>)
        ensures
            r matches Some(s) ==> suite_id(s) == v,
            r is None ==> forall|s: CipherSuite| #[trigger] suite_id(s) != v,
    {
        match v {
            0x1301 => Some(CipherSuite::Aes128GcmSha256),
            0x1303 => Some(CipherSuite::ChaCha20Poly1305Sha256),
            0x1302 => Some(CipherSuite::Aes256GcmSha384),
            _ => None,
        }
    }

    /// The suite's code point.
    pub fn to_u16(self) -> (r: u16)
        ensures
            r == suite_id(self),
    {
        match self {
            CipherSuite::Aes128GcmSha256 => 0x1301,
            CipherSuite::ChaCha20Poly1305Sha256 => 0x1303,
            CipherSuite::Aes256GcmSha384 => 0x1302,
        }
    }

    /// The hash the suite ties to.
    pub fn hash_alg(self) -> (r: Algorithm)
        ensures
            r == suite_hash(self),
    {
        match self {
            CipherSuite::Aes128GcmSha256 => Algorithm::Sha256,
            CipherSuite::ChaCha20Poly1305Sha256 => Algorithm::Sha256,
            CipherSuite::Aes256GcmSha384 => Algorithm::Sha384,
        }
    }
}

/// Code points name suites one to one.
pub proof fn law_suite_ids_distinct(a: CipherSuite, b: CipherSuite)
    requires
        suite_id(a) == suite_id(b),
    ensures
        a == b,
{
}

pub const MAX_PLAINTEXT_BODY: usize = 16384;

pub const MAX_CIPHERTEXT_BODY: usize = 16640;

pub const HEADER_LEN: usize = 5;

pub const AEAD_TAG_LEN: usize = 16;

/// Records sealable under one AES-128-GCM key before a KeyUpdate is due: 2^23.
pub const AEAD_CONFIDENTIALITY_LIMIT: u64 = 8388608;

/// What a record carries.
#[derive(Debug, Clone, Copy, PartialEq, Eq, Structural)]
pub enum ContentType {
    ChangeCipherSpec,
    Alert,
    Handshake,
    ApplicationData,
}

/// A content type's code point.
pub open spec fn content_id(t: ContentType) -> u8 {
    match t {
        ContentType::ChangeCipherSpec => 20,
        ContentType::Alert => 21,
        ContentType::Handshake => 22,
        ContentType::ApplicationData => 23,
    }
}

/// The content type with code point `b`.
pub open spec fn content_type(b: u8) -> Option<ContentType> {
    if b == 20 {
        Some(ContentType::ChangeCipherSpec)
    } else if b == 21 {
        Some(ContentType::Alert)
    } else if b == 22 {
        Some(ContentType::Handshake)
    } else if b == 23 {
        Some(ContentType::ApplicationData)
    } else {
        None
    }
}

impl ContentType {
    /// The content type with code point `b`.
    pub fn from_u8(b: u8) -> (r: Result<Self, RecordError>)
        ensures
            match content_type(b) {
                Some(t) => r == Ok::<Self, RecordError>(t),
                None => r == Err::<Self, RecordError>(RecordError::BadContentType),
            },
    {
        match b {
            20 => Ok(ContentType::ChangeCipherSpec),
            21 => Ok(ContentType::Alert),
            22 => Ok(ContentType::Handshake),
            23 => Ok(ContentType::ApplicationData),
            _ => Err(RecordError::BadContentType),
        }
    }

    /// The code point.
    pub fn to_u8(self) -> (r: u8)
        ensures
            r == content_id(self),
            content_type(r) == Some(self),
    {
        match self {
            ContentType::ChangeCipherSpec => 20,
            ContentType::Alert => 21,
            ContentType::Handshake => 22,
            ContentType::ApplicationData => 23,
        }
    }
}

#[derive(Debug, Clone, Copy, PartialEq, Eq, Structural)]
pub enum RecordError {
    BadContentType,
    BodyTooLarge,
    RecordOverflow,
    OpenFailed,
    SealFailed,
    AllZeroInner,
    NotCipherTextOuter,
    SeqExhausted,
    /// A decrypted record carried an inner ChangeCipherSpec, which the protocol
    /// forbids; the connection must abort with unexpected_message.
    UnexpectedChangeCipherSpec,
    /// A prior open failed authentication; the opener rejects all further use (a
    /// failed open is fatal).
    Poisoned,
    /// The destination buffer was smaller than the sealed record.
    BufferTooSmall,
}

#[derive(Debug, Clone, Copy, PartialEq, Eq, Structural)]
pub enum RecordKeyError {
    Aead(AeadError),
    Kdf(HkdfError),
}

impl From<AeadError> for RecordKeyError {
    fn from(e: AeadError) -> (r: Self) {
        RecordKeyError::Aead(e)
    }
}

impl FromSpecImpl<AeadError> for RecordKeyError {
    open spec fn obeys_from_spec() -> bool {
        true
    }

    open spec fn from_spec(e: AeadError) -> Self {
        RecordKeyError::Aead(e)
    }
}

impl From<HkdfError> for RecordKeyError {
    fn from(e: HkdfError) -> (r: Self) {
        RecordKeyError::Kdf(e)
    }
}

impl FromSpecImpl<HkdfError> for RecordKeyError {
    open spec fn obeys_from_spec() -> bool {
        true
    }

    open spec fn from_spec(e: HkdfError) -> Self {
        RecordKeyError::Kdf(e)
    }
}

impl From<AeadError> for RecordError {
    fn from(_e: AeadError) -> (r: Self) {
        RecordError::SealFailed
    }
}

impl FromSpecImpl<AeadError> for RecordError {
    open spec fn obeys_from_spec() -> bool {
        true
    }

    open spec fn from_spec(_e: AeadError) -> Self {
        RecordError::SealFailed
    }
}

/// A record header: the type, the legacy version and the body's length.
pub open spec fn record_header(ty: u8, body_len: u16) -> Seq<u8> {
    seq![ty, 0x03u8, 0x03] + be16(body_len)
}

/// The wire form of an unprotected record.
pub open spec fn plaintext_record(ty: ContentType, body: Seq<u8>) -> Seq<u8> {
    record_header(content_id(ty), body.len() as u16) + body
}

/// The unprotected record at the front of `input`: its type, its body and its
/// length on the wire; nothing while it is incomplete.
pub open spec fn parse_plaintext(input: Seq<u8>) -> Result<
    Option<(ContentType, Seq<u8>, nat)>,
    RecordError,
> {
    if input.len() < 5 {
        Ok(None)
    } else {
        match content_type(input[0]) {
            None => Err(RecordError::BadContentType),
            Some(ty) => {
                let body_len = from_be16(input.skip(3)) as int;
                if body_len > MAX_PLAINTEXT_BODY {
                    Err(RecordError::BodyTooLarge)
                } else if input.len() < 5 + body_len {
                    Ok(None)
                } else {
                    Ok(Some((ty, input.subrange(5, 5 + body_len), (5 + body_len) as nat)))
                }
            },
        }
    }
}

/// An unprotected record is parsed back from its wire form, whatever follows.
pub proof fn law_plaintext_round_trip(ty: ContentType, body: Seq<u8>, rest: Seq<u8>)
    requires
        body.len() <= MAX_PLAINTEXT_BODY,
    ensures
        parse_plaintext(plaintext_record(ty, body) + rest) == Ok::<
            Option<(ContentType, Seq<u8>, nat)>,
            RecordError,
        >(Some((ty, body, (5 + body.len()) as nat))),
{
    let s = plaintext_record(ty, body) + rest;
    crate::codec::lemma_be16(body.len() as u16, body + rest);
    assert(s.skip(3) =~= be16(body.len() as u16) + (body + rest));
    assert(s.subrange(5, 5 + body.len() as int) =~= body);
}

/// An unprotected record.
#[derive(Debug, Clone)]
pub struct PlaintextRecord<'a> {
    pub content_type: ContentType,
    pub body: &'a [u8],
}

impl<'a> PlaintextRecord<'a> {
    /// Encodes a plaintext record into a fresh buffer.
    pub fn encode(content_type: ContentType, body: &[u8]) -> (r: Result<Vec<u8>, RecordError>)
        ensures
            body.len() <= MAX_PLAINTEXT_BODY ==> r is Ok && r->Ok_0@ == plaintext_record(
                content_type, body@),
            body.len() > MAX_PLAINTEXT_BODY ==> r is Err && r->Err_0 == RecordError::BodyTooLarge,
    {
        let mut out: Vec<u8> = Vec::new();
        Self::encode_into(content_type, body, &mut out)?;
        assert(out@ =~= plaintext_record(content_type, body@));
        Ok(out)
    }

    /// Appends a plaintext record to `out`.
    pub fn encode_into(content_type: ContentType, body: &[u8], out: &mut Vec<u8>) -> (r: Result<
        (),
        RecordError,
    >)
        ensures
            body.len() <= MAX_PLAINTEXT_BODY ==> r is Ok && final(out)@ == old(out)@
                + plaintext_record(content_type, body@),
            body.len() > MAX_PLAINTEXT_BODY ==> r == Err::<(), RecordError>(
                RecordError::BodyTooLarge) && final(out)@ == old(out)@,
    {
        check_body_len(body)?;
        write_header(content_type, body.len() as u16, out);
        put_slice(out, body);
        assert(out@ =~= old(out)@ + plaintext_record(content_type, body@));
        Ok(())
    }

    /// Encodes a plaintext record into `out`, returning its length.
    pub fn encode_into_slice(content_type: ContentType, body: &[u8], out: &mut [u8]) -> (r: Result<
        usize,
        RecordError,
    >)
        ensures
            match slice_outcome(body@.len(), 5, old(out)@.len()) {
                Ok(total) => r == Ok::<usize, RecordError>(total) && final(out)@ == plaintext_record(
                    content_type, body@) + old(out)@.skip(total as int),
                Err(e) => r == Err::<usize, RecordError>(e) && final(out)@ == old(out)@,
            },
    {
        check_body_len(body)?;
        let total: usize = HEADER_LEN + body.len();
        if out.len() < total {
            return Err(RecordError::BufferTooSmall);
        }
        let mut record: Vec<u8> = Vec::new();
        write_header(content_type, body.len() as u16, &mut record);
        put_slice(&mut record, body);
        assert(record@ =~= plaintext_record(content_type, body@));
        overwrite(out, 0, record.as_slice());
        assert(out@ =~= record@ + old(out)@.skip(total as int));
        Ok(total)
    }

    /// The record at the front of `input` and its length on the wire; nothing
    /// while it is incomplete.
    pub fn parse(input: &'a [u8]) -> (r: Result<Option<(Self, usize)>, RecordError>)
        ensures
            match parse_plaintext(input@) {
                Ok(Some((ty, body, total))) => r matches Ok(Some((rec, n))) && rec.content_type == ty
                    && rec.body@ == body && n == total,
                Ok(None) => r matches Ok(None),
                Err(e) => r is Err && r->Err_0 == e,
            },
    {
        if input.len() < HEADER_LEN {
            return Ok(None);
        }
        let content_type = ContentType::from_u8(input[0])?;
        let body_len: usize = input[3] as usize * 256 + input[4] as usize;
        assert(body_len == from_be16(input@.skip(3)));
        if body_len > MAX_PLAINTEXT_BODY {
            return Err(RecordError::BodyTooLarge);
        }
        let total: usize = HEADER_LEN + body_len;
        if input.len() < total {
            return Ok(None);
        }
        Ok(Some((Self { content_type, body: slice_subrange(input, HEADER_LEN, total) }, total)))
    }
}

/// How much of a buffer of `room` bytes a record takes whose body has `body_len`
/// bytes and whose framing has `overhead`.
pub open spec fn slice_outcome(body_len: nat, overhead: nat, room: nat) -> Result<usize, RecordError> {
    if body_len > MAX_PLAINTEXT_BODY {
        Err(RecordError::BodyTooLarge)
    } else if room < body_len + overhead {
        Err(RecordError::BufferTooSmall)
    } else {
        Ok((body_len + overhead) as usize)
    }
}

fn check_body_len(body: &[u8]) -> (r: Result<(), RecordError>)
    ensures
        body.len() <= MAX_PLAINTEXT_BODY ==> r is Ok,
        body.len() > MAX_PLAINTEXT_BODY ==> r == Err::<(), RecordError>(RecordError::BodyTooLarge),
{
    if body.len() > MAX_PLAINTEXT_BODY {
        return Err(RecordError::BodyTooLarge);
    }
    Ok(())
}

fn write_header(content_type: ContentType, body_len: u16, out: &mut Vec<u8>)
    ensures
        final(out)@ == old(out)@ + record_header(content_id(content_type), body_len),
{
    out.push(content_type.to_u8());
    put_u16(out, PROTOCOL_VERSION);
    put_u16(out, body_len);
    assert(out@ =~= old(out)@ + record_header(content_id(content_type), body_len));
}

/// Writes `bytes` over those of `out` from `at` on.
fn overwrite(out: &mut [u8], at: usize, bytes: &[u8])
    requires
        at + bytes.len() <= old(out).len(),
    ensures
        final(out)@ == old(out)@.take(at as int) + bytes@ + old(out)@.skip((at + bytes.len()) as int),
{
    let room: usize = out.len();
    let mut i: usize = 0;
    while i < bytes.len()
        invariant
            i <= bytes.len(),
            at + bytes.len() <= room,
            room == out@.len(),
            out@.len() == old(out)@.len(),
            forall|j: int| 0 <= j < i ==> out@[at + j] == bytes@[j],
            forall|j: int| 0 <= j < at ==> out@[j] == old(out)@[j],
            forall|j: int| at + i <= j < out@.len() ==> out@[j] == old(out)@[j],
        decreases bytes.len() - i,
    {
        out[at + i] = bytes[i];
        i = i + 1;
    }
    assert(out@ =~= old(out)@.take(at as int) + bytes@ + old(out)@.skip((at + bytes.len()) as int));
}

/// The record protection key that a traffic secret gives under a suite.
pub open spec fn record_key(secret: Seq<u8>, suite: CipherSuite) -> AeadKeyView {
    AeadKeyView {
        alg: suite_cipher(suite),
        key: traffic_key(suite_hash(suite), secret, key_len(suite_cipher(suite)))->Ok_0,
        iv: traffic_iv(suite_hash(suite), secret),
    }
}

fn aead_for_suite(secret: &[u8], suite: CipherSuite) -> (r: Result<AeadKey, RecordKeyError>)
    requires
        hashable(secret@),
    ensures
        r is Ok,
        r->Ok_0@ == record_key(secret@, suite),
{
    let alg = suite.hash_alg();
    proof {
        lemma_label_lengths();
    }
    let made = match suite {
        CipherSuite::Aes128GcmSha256 => match TrafficKeys::<16>::derive(alg, secret) {
            Ok(keys) => AeadKey::new(AeadAlgorithm::Aes128Gcm, &keys.key, keys.iv),
            Err(e) => return Err(RecordKeyError::Kdf(e)),
        },
        CipherSuite::ChaCha20Poly1305Sha256 => match TrafficKeys::<32>::derive(alg, secret) {
            Ok(keys) => AeadKey::new(AeadAlgorithm::ChaCha20Poly1305, &keys.key, keys.iv),
            Err(e) => return Err(RecordKeyError::Kdf(e)),
        },
        CipherSuite::Aes256GcmSha384 => match TrafficKeys::<32>::derive(alg, secret) {
            Ok(keys) => AeadKey::new(AeadAlgorithm::Aes256Gcm, &keys.key, keys.iv),
            Err(e) => return Err(RecordKeyError::Kdf(e)),
        },
    };
    match made {
        Ok(key) => Ok(key),
        Err(e) => Err(RecordKeyError::Aead(e)),
    }
}

/// The wire form of a protected record: the body and its type, sealed under a
/// header that says application data.
pub open spec fn sealed_record(key: AeadKeyView, seq: u64, ty: ContentType, body: Seq<u8>) -> Seq<u8> {
    let header = record_header(23, (body.len() + 17) as u16);
    header + sealed(key.alg, key.key, nonce_for(key.iv, seq), header, body.push(content_id(ty)))
}

/// What of `s` is left without the zeros at its end.
pub open spec fn strip_zeros(s: Seq<u8>) -> Seq<u8>
    decreases s.len(),
{
    if s.len() > 0 && s.last() == 0 {
        strip_zeros(s.drop_last())
    } else {
        s
    }
}

/// The type and content of a decrypted record: padding off the end, then the
/// type, then the content.
pub open spec fn inner_content(plain: Seq<u8>) -> Result<(ContentType, Seq<u8>), RecordError> {
    let t = strip_zeros(plain);
    if t.len() == 0 {
        Err(RecordError::AllZeroInner)
    } else if t.len() - 1 > MAX_PLAINTEXT_BODY {
        Err(RecordError::RecordOverflow)
    } else {
        match content_type(t.last()) {
            None => Err(RecordError::BadContentType),
            Some(ContentType::ChangeCipherSpec) => Err(RecordError::UnexpectedChangeCipherSpec),
            Some(ty) => Ok((ty, t.drop_last())),
        }
    }
}

/// The extent of the protected record at the front of `input`; nothing while it
/// is incomplete.
pub open spec fn ciphertext_frame(input: Seq<u8>, poisoned: bool, seq: u64) -> Result<
    Option<nat>,
    RecordError,
> {
    if poisoned {
        Err(RecordError::Poisoned)
    } else if input.len() < 5 {
        Ok(None)
    } else {
        let body_len = from_be16(input.skip(3)) as int;
        if body_len > MAX_CIPHERTEXT_BODY {
            Err(RecordError::BodyTooLarge)
        } else if input.len() < 5 + body_len {
            Ok(None)
        } else if input[0] != 23 {
            Err(RecordError::NotCipherTextOuter)
        } else if seq == u64::MAX {
            Err(RecordError::SeqExhausted)
        } else {
            Ok(Some((5 + body_len) as nat))
        }
    }
}

/// The plaintext of the protected record that the first `total` bytes of `input`
/// are, where it authenticates.
pub open spec fn record_plaintext(key: AeadKeyView, seq: u64, input: Seq<u8>, total: nat) -> Option<
    Seq<u8>,
> {
    opened(
        key.alg,
        key.key,
        nonce_for(key.iv, seq),
        input.take(5),
        input.subrange(5, total as int),
    )
}

/// Where protected records are expected: under which key, at which number, and
/// whether one has already failed to authenticate.
pub struct OpenerView {
    pub key: AeadKeyView,
    pub seq: u64,
    pub poisoned: bool,
}

/// What opening `input` gives: the type and content of a record and its length on
/// the wire, nothing while it is incomplete, or an error.
pub open spec fn opened_record(o: OpenerView, input: Seq<u8>) -> Result<
    Option<(ContentType, Seq<u8>, nat)>,
    RecordError,
> {
    match ciphertext_frame(input, o.poisoned, o.seq) {
        Err(e) => Err(e),
        Ok(None) => Ok(None),
        Ok(Some(total)) => match record_plaintext(o.key, o.seq, input, total) {
            None => Err(RecordError::OpenFailed),
            Some(plain) => match inner_content(plain) {
                Err(e) => Err(e),
                Ok((ty, content)) => Ok(Some((ty, content, total))),
            },
        },
    }
}

/// Where records are expected after opening `input`: a record that authenticates
/// advances the number, whatever it holds, and one that does not poisons the
/// opener.
pub open spec fn opener_after(o: OpenerView, input: Seq<u8>) -> OpenerView {
    match ciphertext_frame(input, o.poisoned, o.seq) {
        Ok(Some(total)) => match record_plaintext(o.key, o.seq, input, total) {
            None => OpenerView { poisoned: true, ..o },
            Some(_) => OpenerView { seq: (o.seq + 1) as u64, ..o },
        },
        _ => o,
    }
}

/// A poisoned opener opens nothing any more and stays poisoned.
pub proof fn law_poison_is_permanent(o: OpenerView, input: Seq<u8>)
    requires
        o.poisoned,
    ensures
        opened_record(o, input) == Err::<Option<(ContentType, Seq<u8>, nat)>, RecordError>(
            RecordError::Poisoned,
        ),
        opener_after(o, input) == o,
{
}

/// A record that failed to authenticate leaves the opener poisoned.
pub proof fn law_failed_open_poisons(o: OpenerView, input: Seq<u8>)
    requires
        opened_record(o, input) == Err::<Option<(ContentType, Seq<u8>, nat)>, RecordError>(
            RecordError::OpenFailed,
        ),
    ensures
        opener_after(o, input).poisoned,
{
    match ciphertext_frame(input, o.poisoned, o.seq) {
        Ok(Some(total)) => match record_plaintext(o.key, o.seq, input, total) {
            None => {},
            Some(plain) => {
                assert(inner_content(plain) != Err::<(ContentType, Seq<u8>), RecordError>(
                    RecordError::OpenFailed,
                ));
            },
        },
        _ => {},
    }
}

/// Padding with zeros does not change the content of a record.
pub proof fn law_padding_is_ignored(plain: Seq<u8>, padding: nat)
    ensures
        inner_content(plain + Seq::new(padding, |i: int| 0u8)) == inner_content(plain),
    decreases padding,
{
    if padding == 0 {
        assert(plain + Seq::new(0, |i: int| 0u8) =~= plain);
    } else {
        let s = plain + Seq::new(padding, |i: int| 0u8);
        assert(s.drop_last() =~= plain + Seq::new((padding - 1) as nat, |i: int| 0u8));
        law_padding_is_ignored(plain, (padding - 1) as nat);
    }
}

/// Seals records under one traffic secret, each under its own number.
pub struct Sealer {
    aead: AeadKey,
    seq: u64,
}

/// Under which key the next record is sealed, and at which number.
pub struct SealerView {
    pub key: AeadKeyView,
    pub seq: u64,
}

impl View for Sealer {
    type V = SealerView;

    closed spec fn view(&self) -> SealerView {
        SealerView { key: self.aead@, seq: self.seq }
    }
}

impl Sealer {
    /// A sealer for the AES-128-GCM suite.
    pub fn from_secret(secret: &[u8; 32]) -> (r: Result<Self, RecordKeyError>)
        ensures
            r is Ok,
            r->Ok_0@ == (SealerView {
                key: record_key(secret@, CipherSuite::Aes128GcmSha256),
                seq: 0,
            }),
    {
        Self::with_suite(secret, CipherSuite::Aes128GcmSha256)
    }

    /// A sealer for `suite`, before its first record.
    pub fn with_suite(secret: &[u8], suite: CipherSuite) -> (r: Result<Self, RecordKeyError>)
        requires
            hashable(secret@),
        ensures
            r is Ok,
            r->Ok_0@ == (SealerView { key: record_key(secret@, suite), seq: 0 }),
    {
        let aead = aead_for_suite(secret, suite)?;
        Ok(Self { aead, seq: 0 })
    }

    /// The number of the next record.
    pub fn seq(&self) -> (r: u64)
        ensures
            r == self@.seq,
    {
        self.seq
    }

    /// True once a KeyUpdate is due (see [`AEAD_CONFIDENTIALITY_LIMIT`]).
    pub fn needs_key_update(&self) -> (r: bool)
        ensures
            r == (self@.seq >= AEAD_CONFIDENTIALITY_LIMIT),
    {
        self.seq >= AEAD_CONFIDENTIALITY_LIMIT
    }

    /// Seals one record. What is returned opens, under the same key and at the
    /// same number, to what was sealed.
    pub fn seal(&mut self, inner_type: ContentType, body: &[u8]) -> (r: Result<Vec<u8>, RecordError>)
        ensures
            match seal_outcome(old(self)@.seq, body@.len()) {
                Ok(next) => {
                    &&& r is Ok
                    &&& r->Ok_0@ == sealed_record(old(self)@.key, old(self)@.seq, inner_type, body@)
                    &&& r->Ok_0@.len() == body@.len() + 22
                    &&& opens_to(old(self)@, r->Ok_0@, inner_type, body@)
                    &&& final(self)@ == (SealerView { key: old(self)@.key, seq: next })
                },
                Err(e) => r is Err && r->Err_0 == e && final(self)@ == old(self)@,
            },
    {
        check_body_len(body)?;
        self.check_seq()?;
        self.seal_record(inner_type, body)
    }

    /// Appends a sealed record to `out`.
    pub fn seal_into(&mut self, inner_type: ContentType, body: &[u8], out: &mut Vec<u8>) -> (r: Result<
        (),
        RecordError,
    >)
        ensures
            match seal_outcome(old(self)@.seq, body@.len()) {
                Ok(next) => {
                    &&& r is Ok
                    &&& final(out)@ == old(out)@ + sealed_record(
                        old(self)@.key, old(self)@.seq, inner_type, body@)
                    &&& opens_to(
                        old(self)@,
                        sealed_record(old(self)@.key, old(self)@.seq, inner_type, body@),
                        inner_type,
                        body@,
                    )
                    &&& final(self)@ == (SealerView { key: old(self)@.key, seq: next })
                },
                Err(e) => {
                    &&& r == Err::<(), RecordError>(e)
                    &&& final(out)@ == old(out)@
                    &&& final(self)@ == old(self)@
                },
            },
    {
        let record = self.seal(inner_type, body)?;
        put_slice(out, record.as_slice());
        Ok(())
    }

    /// Seals one record into `out`, returning its length.
    pub fn seal_into_slice(&mut self, inner_type: ContentType, body: &[u8], out: &mut [u8]) -> (r: Result<
        usize,
        RecordError,
    >)
        ensures
            match slice_outcome(body@.len(), 22, old(out)@.len()) {
                Err(e) => {
                    &&& r == Err::<usize, RecordError>(e)
                    &&& final(out)@ == old(out)@
                    &&& final(self)@ == old(self)@
                },
                Ok(total) => if old(self)@.seq == u64::MAX {
                    &&& r == Err::<usize, RecordError>(RecordError::SeqExhausted)
                    &&& final(out)@ == old(out)@
                    &&& final(self)@ == old(self)@
                } else {
                    &&& r == Ok::<usize, RecordError>(total)
                    &&& final(out)@ == sealed_record(
                        old(self)@.key, old(self)@.seq, inner_type, body@) + old(out)@.skip(total as int)
                    &&& opens_to(
                        old(self)@,
                        sealed_record(old(self)@.key, old(self)@.seq, inner_type, body@),
                        inner_type,
                        body@,
                    )
                    &&& final(self)@ == (SealerView {
                        key: old(self)@.key,
                        seq: (old(self)@.seq + 1) as u64,
                    })
                },
            },
    {
        check_body_len(body)?;
        let total: usize = HEADER_LEN + body.len() + 1 + AEAD_TAG_LEN;
        if out.len() < total {
            return Err(RecordError::BufferTooSmall);
        }
        let record = self.seal(inner_type, body)?;
        overwrite(out, 0, record.as_slice());
        assert(out@ =~= record@ + old(out)@.skip(total as int));
        Ok(total)
    }

    fn check_seq(&self) -> (r: Result<(), RecordError>)
        ensures
            self@.seq != u64::MAX ==> r is Ok,
            self@.seq == u64::MAX ==> r == Err::<(), RecordError>(RecordError::SeqExhausted),
    {
        if self.seq == u64::MAX {
            return Err(RecordError::SeqExhausted);
        }
        Ok(())
    }

    fn seal_record(&mut self, inner_type: ContentType, body: &[u8]) -> (r: Result<
        Vec<u8>,
        RecordError,
    >)
        requires
            body.len() <= MAX_PLAINTEXT_BODY,
            old(self)@.seq != u64::MAX,
        ensures
            r is Ok,
            r->Ok_0@ == sealed_record(old(self)@.key, old(self)@.seq, inner_type, body@),
            r->Ok_0@.len() == body@.len() + 22,
            opens_to(old(self)@, r->Ok_0@, inner_type, body@),
            final(self)@ == (SealerView {
                key: old(self)@.key,
                seq: (old(self)@.seq + 1) as u64,
            }),
    {
        let seq: u64 = self.seq;
        self.seq = self.seq + 1;
        let outer_body_len: usize = body.len() + 1 + AEAD_TAG_LEN;
        let mut out: Vec<u8> = Vec::new();
        write_header(ContentType::ApplicationData, outer_body_len as u16, &mut out);
        let ghost header = record_header(23, (body@.len() + 17) as u16);
        assert(out@ =~= header);
        let mut plaintext: Vec<u8> = to_vec(body);
        plaintext.push(inner_type.to_u8());
        assert(plaintext@ =~= body@.push(content_id(inner_type)));
        let ciphertext = match self.aead.seal(seq, out.as_slice(), plaintext.as_slice()) {
            Ok(c) => c,
            Err(_) => return Err(RecordError::SealFailed),
        };
        put_slice(&mut out, ciphertext.as_slice());
        proof {
            let input = out@;
            crate::codec::lemma_be16(outer_body_len as u16, ciphertext@);
            assert(input.skip(3) =~= be16(outer_body_len as u16) + ciphertext@);
            assert(input.take(5) =~= header);
            assert(input.subrange(5, input.len() as int) =~= ciphertext@);
            assert(plaintext@.last() != 0);
            assert(plaintext@.drop_last() =~= body@);
            assert(strip_zeros(plaintext@) == plaintext@);
        }
        Ok(out)
    }
}

/// The next record number after sealing a body of `body_len` bytes.
pub open spec fn seal_outcome(seq: u64, body_len: nat) -> Result<u64, RecordError> {
    if body_len > MAX_PLAINTEXT_BODY {
        Err(RecordError::BodyTooLarge)
    } else if seq == u64::MAX {
        Err(RecordError::SeqExhausted)
    } else {
        Ok((seq + 1) as u64)
    }
}

/// Whether an opener that expects the record that `s` sealed opens `record` to
/// the content `body` of type `ty`. No opener passes on a ChangeCipherSpec.
pub open spec fn opens_to(s: SealerView, record: Seq<u8>, ty: ContentType, body: Seq<u8>) -> bool {
    let o = OpenerView { key: s.key, seq: s.seq, poisoned: false };
    &&& ty != ContentType::ChangeCipherSpec ==> opened_record(o, record) == Ok::<
        Option<(ContentType, Seq<u8>, nat)>,
        RecordError,
    >(Some((ty, body, record.len())))
    &&& ty == ContentType::ChangeCipherSpec ==> opened_record(o, record) == Err::<
        Option<(ContentType, Seq<u8>, nat)>,
        RecordError,
    >(RecordError::UnexpectedChangeCipherSpec)
}

/// The frame of a protected record.
struct Ciphertext {
    body: Range<usize>,
    total: usize,
}

impl Ciphertext {
    fn parse(input: &[u8], poisoned: bool, seq: u64) -> (r: Result<Option<Self>, RecordError>)
        ensures
            match ciphertext_frame(input@, poisoned, seq) {
                Ok(Some(total)) => r matches Ok(Some(c)) && c.total == total && c.body.start == 5
                    && c.body.end == total && total <= input@.len(),
                Ok(None) => r matches Ok(None),
                Err(e) => r is Err && r->Err_0 == e,
            },
    {
        if poisoned {
            return Err(RecordError::Poisoned);
        }
        if input.len() < HEADER_LEN {
            return Ok(None);
        }
        let outer_type: u8 = input[0];
        let body_len: usize = input[3] as usize * 256 + input[4] as usize;
        assert(body_len == from_be16(input@.skip(3)));
        if body_len > MAX_CIPHERTEXT_BODY {
            return Err(RecordError::BodyTooLarge);
        }
        let total: usize = HEADER_LEN + body_len;
        if input.len() < total {
            return Ok(None);
        }
        if outer_type != ContentType::ApplicationData.to_u8() {
            return Err(RecordError::NotCipherTextOuter);
        }
        if seq == u64::MAX {
            return Err(RecordError::SeqExhausted);
        }
        Ok(Some(Self { body: HEADER_LEN..total, total }))
    }
}

/// Opens records under one traffic secret, each under its own number.
pub struct Opener {
    aead: AeadKey,
    seq: u64,
    poisoned: bool,
}

impl View for Opener {
    type V = OpenerView;

    closed spec fn view(&self) -> OpenerView {
        OpenerView { key: self.aead@, seq: self.seq, poisoned: self.poisoned }
    }
}

/// `input` after opening: where a record authenticated, its plaintext stands in
/// place of the ciphertext's first bytes.
pub open spec fn input_after(o: OpenerView, input: Seq<u8>) -> Seq<u8> {
    match ciphertext_frame(input, o.poisoned, o.seq) {
        Ok(Some(total)) => match record_plaintext(o.key, o.seq, input, total) {
            Some(plain) => input.take(5) + plain + input.skip(5 + plain.len() as int),
            None => input,
        },
        _ => input,
    }
}

impl Opener {
    /// An opener for the AES-128-GCM suite.
    pub fn from_secret(secret: &[u8; 32]) -> (r: Result<Self, RecordKeyError>)
        ensures
            r is Ok,
            r->Ok_0@ == (OpenerView {
                key: record_key(secret@, CipherSuite::Aes128GcmSha256),
                seq: 0,
                poisoned: false,
            }),
    {
        Self::with_suite(secret, CipherSuite::Aes128GcmSha256)
    }

    /// An opener for `suite`, before its first record.
    pub fn with_suite(secret: &[u8], suite: CipherSuite) -> (r: Result<Self, RecordKeyError>)
        requires
            hashable(secret@),
        ensures
            r is Ok,
            r->Ok_0@ == (OpenerView {
                key: record_key(secret@, suite),
                seq: 0,
                poisoned: false,
            }),
    {
        let aead = aead_for_suite(secret, suite)?;
        Ok(Self { aead, seq: 0, poisoned: false })
    }

    /// The number of the next record.
    pub fn seq(&self) -> (r: u64)
        ensures
            r == self@.seq,
    {
        self.seq
    }

    /// True once a KeyUpdate is due (see [`AEAD_CONFIDENTIALITY_LIMIT`]).
    pub fn needs_key_update(&self) -> (r: bool)
        ensures
            r == (self@.seq >= AEAD_CONFIDENTIALITY_LIMIT),
    {
        self.seq >= AEAD_CONFIDENTIALITY_LIMIT
    }

    /// Opens the record at the front of `input` in place: its type, where its
    /// content stands, and its length on the wire; nothing while it is
    /// incomplete.
    pub fn open(&mut self, input: &mut [u8]) -> (r: Result<
        Option<(ContentType, Range<usize>, usize)>,
        RecordError,
    >)
        ensures
            match opened_record(old(self)@, old(input)@) {
                Ok(Some((ty, content, total))) => {
                    &&& r matches Ok(Some((t, range, n))) && t == ty && n == total && range.start == 5
                        && range.end == 5 + content.len() && range.end <= total
                        && final(input)@.subrange(5, range.end as int) == content
                },
                Ok(None) => r matches Ok(None),
                Err(e) => r is Err && r->Err_0 == e,
            },
            final(self)@ == opener_after(old(self)@, old(input)@),
            final(input)@ == input_after(old(self)@, old(input)@),
    {
        let frame = match Ciphertext::parse(input, self.poisoned, self.seq)? {
            Some(frame) => frame,
            None => return Ok(None),
        };
        let seq: u64 = self.seq;
        let aad = to_vec(slice_subrange(input, 0, HEADER_LEN));
        let body = to_vec(slice_subrange(input, frame.body.start, frame.body.end));
        assert(aad@ =~= input@.take(5));
        let plain = match self.aead.open(seq, aad.as_slice(), body.as_slice()) {
            Ok(plain) => plain,
            Err(_) => {
                self.poisoned = true;
                return Err(RecordError::OpenFailed);
            },
        };
        self.seq = self.seq + 1;
        overwrite(input, HEADER_LEN, plain.as_slice());
        let mut content_len: usize = plain.len();
        assert(plain@.take(content_len as int) =~= plain@);
        while content_len > 0 && plain[content_len - 1] == 0
            invariant
                content_len <= plain.len(),
                strip_zeros(plain@) == strip_zeros(plain@.take(content_len as int)),
            decreases content_len,
        {
            assert(plain@.take(content_len as int).drop_last() =~= plain@.take(content_len - 1));
            content_len = content_len - 1;
        }
        assert(strip_zeros(plain@) == plain@.take(content_len as int));
        if content_len == 0 {
            return Err(RecordError::AllZeroInner);
        }
        content_len = content_len - 1;
        if content_len > MAX_PLAINTEXT_BODY {
            return Err(RecordError::RecordOverflow);
        }
        let inner_type = ContentType::from_u8(plain[content_len])?;
        if inner_type == ContentType::ChangeCipherSpec {
            return Err(RecordError::UnexpectedChangeCipherSpec);
        }
        let end: usize = HEADER_LEN + content_len;
        assert(input@.subrange(5, end as int) =~= plain@.take(content_len as int));
        assert(plain@.take(content_len + 1).drop_last() =~= plain@.take(content_len as int));
        Ok(Some((inner_type, HEADER_LEN..end, frame.total)))
    }
}

} // verus!
