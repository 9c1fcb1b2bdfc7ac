//! Wire primitives: big-endian integers, length-prefixed vectors, and a
//! cursor over received bytes.

use vstd::prelude::*;
use vstd::slice::slice_subrange;

verus! {

/// Why received bytes could not be decoded.
#[derive(Debug, Clone, Copy, PartialEq, Eq, Structural)]
pub enum DecodeError {
    /// The input ended inside a field.
    UnexpectedEnd,
    /// Bytes were left over, or two lists that must pair up do not.
    Trailing,
    /// A field holds a value outside its enumeration.
    InvalidEnum,
    /// A Certificate message lists more entries than are accepted.
    TooManyCertificates,
    /// A handshake message continues in a record of another epoch.
    HandshakeSpansEpoch,
    /// A handshake message announces more bytes than are buffered for one.
    HandshakeTooLarge,
}

/// Why a value could not be encoded.
#[derive(Debug, Clone, Copy, PartialEq, Eq, Structural)]
pub enum EncodeError {
    /// A vector is longer than its length prefix can say.
    Overflow,
}

/// The two bytes of `v`, most significant first.
pub open spec fn be16(v: u16) -> Seq<u8> {
    seq![(v / 256) as u8, (v % 256) as u8]
}

/// The low three bytes of `v`, most significant first.
pub open spec fn be24(v: u32) -> Seq<u8> {
    seq![(v / 65536 % 256) as u8, (v / 256 % 256) as u8, (v % 256) as u8]
}

/// The four bytes of `v`, most significant first.
pub open spec fn be32(v: u32) -> Seq<u8> {
    seq![(v / 16777216) as u8, (v / 65536 % 256) as u8, (v / 256 % 256) as u8, (v % 256) as u8]
}

/// The eight bytes of `v`, most significant first.
pub open spec fn be64(v: u64) -> Seq<u8> {
    be32((v / 0x1_0000_0000) as u32) + be32((v % 0x1_0000_0000) as u32)
}

/// The number whose first two bytes are those of `s`.
pub open spec fn from_be16(s: Seq<u8>) -> u16 {
    (s[0] * 256 + s[1]) as u16
}

/// The number whose low three bytes are the first three of `s`.
pub open spec fn from_be24(s: Seq<u8>) -> u32 {
    (s[0] * 65536 + s[1] * 256 + s[2]) as u32
}

/// The number whose four bytes are the first four of `s`.
pub open spec fn from_be32(s: Seq<u8>) -> u32 {
    (s[0] * 16777216 + s[1] * 65536 + s[2] * 256 + s[3]) as u32
}

/// The number whose eight bytes are the first eight of `s`.
pub open spec fn from_be64(s: Seq<u8>) -> u64 {
    (from_be32(s) * 0x1_0000_0000 + from_be32(s.skip(4))) as u64
}

/// `s` behind a one-byte length.
pub open spec fn vec8(s: Seq<u8>) -> Seq<u8> {
    seq![s.len() as u8] + s
}

/// `s` behind a two-byte length.
pub open spec fn vec16(s: Seq<u8>) -> Seq<u8> {
    be16(s.len() as u16) + s
}

/// `s` behind a three-byte length.
pub open spec fn vec24(s: Seq<u8>) -> Seq<u8> {
    be24(s.len() as u32) + s
}

/// The largest length a three-byte prefix can say.
pub const MAX_U24: usize = 0xff_ffff;

/// The first `n` bytes of `s`, and what follows them.
pub open spec fn get_bytes(s: Seq<u8>, n: nat) -> Option<(Seq<u8>, Seq<u8>)> {
    if n <= s.len() {
        Some((s.take(n as int), s.skip(n as int)))
    } else {
        None
    }
}

/// The one-byte number at the front of `s`, and what follows it.
pub open spec fn get_u8(s: Seq<u8>) -> Option<(u8, Seq<u8>)> {
    if 1 <= s.len() {
        Some((s[0], s.skip(1)))
    } else {
        None
    }
}

/// The two-byte number at the front of `s`, and what follows it.
pub open spec fn get_u16(s: Seq<u8>) -> Option<(u16, Seq<u8>)> {
    if 2 <= s.len() {
        Some((from_be16(s), s.skip(2)))
    } else {
        None
    }
}

/// The three-byte number at the front of `s`, and what follows it.
pub open spec fn get_u24(s: Seq<u8>) -> Option<(u32, Seq<u8>)> {
    if 3 <= s.len() {
        Some((from_be24(s), s.skip(3)))
    } else {
        None
    }
}

/// The four-byte number at the front of `s`, and what follows it.
pub open spec fn get_u32(s: Seq<u8>) -> Option<(u32, Seq<u8>)> {
    if 4 <= s.len() {
        Some((from_be32(s), s.skip(4)))
    } else {
        None
    }
}

/// The body of the vector with a one-byte length at the front of `s`, and what
/// follows it.
pub open spec fn get_vec8(s: Seq<u8>) -> Option<(Seq<u8>, Seq<u8>)> {
    match get_u8(s) {
        Some((n, rest)) => get_bytes(rest, n as nat),
        None => None,
    }
}

/// The body of the vector with a two-byte length at the front of `s`, and what
/// follows it.
pub open spec fn get_vec16(s: Seq<u8>) -> Option<(Seq<u8>, Seq<u8>)> {
    match get_u16(s) {
        Some((n, rest)) => get_bytes(rest, n as nat),
        None => None,
    }
}

/// The body of the vector with a three-byte length at the front of `s`, and
/// what follows it.
pub open spec fn get_vec24(s: Seq<u8>) -> Option<(Seq<u8>, Seq<u8>)> {
    match get_u24(s) {
        Some((n, rest)) => get_bytes(rest, n as nat),
        None => None,
    }
}

/// `tail`, if there is one, behind `head`.
pub open spec fn prepend<T>(head: Seq<T>, tail: Option<Seq<T>>) -> Option<Seq<T>> {
    match tail {
        Some(t) => Some(head + t),
        None => None,
    }
}

/// The items that `item` reads off `s`, one behind another, up to its end;
/// `None` where `item` fails or reads nothing.
pub open spec fn get_all<T>(
    item: spec_fn(Seq<u8>) -> Option<(T, Seq<u8>)>,
    s: Seq<u8>,
) -> Option<Seq<T>>
    decreases s.len(),
{
    if s.len() == 0 {
        Some(Seq::empty())
    } else {
        match item(s) {
            Some((t, rest)) => if rest.len() < s.len() {
                prepend(seq![t], get_all(item, rest))
            } else {
                None
            },
            None => None,
        }
    }
}

/// The encodings of the items of `l`, one behind another.
pub open spec fn put_all<T>(enc: spec_fn(T) -> Seq<u8>, l: Seq<T>) -> Seq<u8>
    decreases l.len(),
{
    if l.len() == 0 {
        Seq::empty()
    } else {
        enc(l[0]) + put_all(enc, l.skip(1))
    }
}

/// One more item behind those already read.
pub proof fn lemma_get_all_step<T>(
    item: spec_fn(Seq<u8>) -> Option<(T, Seq<u8>)>,
    whole: Seq<u8>,
    acc: Seq<T>,
    s: Seq<u8>,
)
    requires
        get_all(item, whole) == prepend(acc, get_all(item, s)),
        s.len() > 0,
    ensures
        match item(s) {
            Some((t, rest)) => rest.len() < s.len() ==> get_all(item, whole) == prepend(
                acc.push(t),
                get_all(item, rest),
            ),
            None => get_all(item, whole) is None,
        },
{
    if let Some((t, rest)) = item(s) {
        if rest.len() < s.len() {
            if let Some(l) = get_all(item, rest) {
                assert(acc + (seq![t] + l) =~= acc.push(t) + l);
            }
        }
    }
}

/// Nothing read yet, or nothing left to read.
pub proof fn lemma_get_all_ends<T>(item: spec_fn(Seq<u8>) -> Option<(T, Seq<u8>)>, s: Seq<u8>, acc: Seq<T>)
    ensures
        get_all(item, s) == prepend(Seq::<T>::empty(), get_all(item, s)),
        s.len() == 0 ==> prepend(acc, get_all(item, s)) == Some(acc),
{
    if let Some(l) = get_all(item, s) {
        assert(Seq::<T>::empty() + l =~= l);
    }
    assert(acc + Seq::<T>::empty() =~= acc);
}

/// Reading a list of encodings gives the list back, where each item is read
/// back from its own encoding whatever follows.
pub proof fn lemma_get_put_all<T>(
    item: spec_fn(Seq<u8>) -> Option<(T, Seq<u8>)>,
    enc: spec_fn(T) -> Seq<u8>,
    l: Seq<T>,
)
    requires
        forall|i: int, rest: Seq<u8>|
            #![trigger enc(l[i]) + rest]
            0 <= i < l.len() ==> enc(l[i]).len() > 0 && item(enc(l[i]) + rest) == Some((l[i], rest)),
    ensures
        get_all(item, put_all(enc, l)) == Some(l),
    decreases l.len(),
{
    if l.len() == 0 {
        assert(l =~= Seq::empty());
    } else {
        let t = l.skip(1);
        assert forall|i: int, rest: Seq<u8>|
            #![trigger enc(t[i]) + rest]
            0 <= i < t.len() implies enc(t[i]).len() > 0 && item(enc(t[i]) + rest) == Some(
            (t[i], rest),
        ) by {
            assert(t[i] == l[i + 1]);
            assert(enc(l[i + 1]) + rest == enc(t[i]) + rest);
        }
        lemma_get_put_all(item, enc, t);
        let s = put_all(enc, l);
        assert(s == enc(l[0]) + put_all(enc, t));
        assert(item(s) == Some((l[0], put_all(enc, t))));
        assert(enc(l[0]).len() > 0);
        assert(seq![l[0]] + t =~= l);
    }
}

/// Bytes that are read as a list are the encodings of that list, where whatever is
/// read as an item is that item's encoding with the rest behind it.
pub proof fn lemma_put_get_all<T>(
    item: spec_fn(Seq<u8>) -> Option<(T, Seq<u8>)>,
    enc: spec_fn(T) -> Seq<u8>,
    s: Seq<u8>,
)
    requires
        forall|w: Seq<u8>| #[trigger] item(w) matches Some((t, rest)) ==> w == enc(t) + rest,
        get_all(item, s) is Some,
    ensures
        put_all(enc, get_all(item, s)->0) == s,
    decreases s.len(),
{
    if s.len() == 0 {
        assert(put_all(enc, Seq::<T>::empty()) =~= s);
    } else {
        let (t, rest) = item(s)->0;
        lemma_put_get_all(item, enc, rest);
        let l = get_all(item, rest)->0;
        assert((seq![t] + l).skip(1) =~= l);
        assert((seq![t] + l)[0] == t);
    }
}

/// A vector with a length byte that is read at the front of bytes is what stands
/// there.
pub proof fn lemma_vec8_canonical(s: Seq<u8>)
    ensures
        get_vec8(s) matches Some((b, rest)) ==> b.len() <= 0xff && s == vec8(b) + rest,
{
    if let Some((b, rest)) = get_vec8(s) {
        assert(s =~= vec8(b) + rest);
    }
}

/// A vector with a two-byte length that is read at the front of bytes is what stands
/// there.
pub proof fn lemma_vec16_canonical(s: Seq<u8>)
    ensures
        get_vec16(s) matches Some((b, rest)) ==> b.len() <= 0xffff && s == vec16(b) + rest,
{
    if let Some((b, rest)) = get_vec16(s) {
        lemma_be16_canonical(s);
        let (n, body) = get_u16(s)->0;
        assert(body =~= b + rest);
        assert(be16(n) + (b + rest) =~= vec16(b) + rest);
    }
}

/// A two-byte number that is read at the front of bytes is what stands there.
pub proof fn lemma_be16_canonical(s: Seq<u8>)
    ensures
        get_u16(s) matches Some((v, rest)) ==> s == be16(v) + rest,
{
    if let Some((v, rest)) = get_u16(s) {
        assert(s =~= be16(v) + rest);
    }
}

/// A four-byte number that is read at the front of bytes is what stands there.
pub proof fn lemma_be32_canonical(s: Seq<u8>)
    ensures
        get_u32(s) matches Some((v, rest)) ==> s == be32(v) + rest,
{
    if let Some((v, rest)) = get_u32(s) {
        let (a, b, c, d) = (s[0] as int, s[1] as int, s[2] as int, s[3] as int);
        assert(v == a * 16777216 + b * 65536 + c * 256 + d);
        assert(v / 16777216 == a);
        assert(v / 65536 == a * 256 + b);
        assert(v / 256 == a * 65536 + b * 256 + c);
        assert(s =~= be32(v) + rest);
    }
}

/// The encodings of a list with one item more.
pub proof fn lemma_put_all_push<T>(enc: spec_fn(T) -> Seq<u8>, l: Seq<T>, t: T)
    ensures
        put_all(enc, l.push(t)) == put_all(enc, l) + enc(t),
    decreases l.len(),
{
    if l.len() == 0 {
        assert(l.push(t).skip(1) =~= Seq::empty());
        assert(put_all(enc, l.push(t).skip(1)) =~= Seq::empty());
        assert(put_all(enc, l.push(t)) =~= enc(t));
        assert(put_all(enc, l) + enc(t) =~= enc(t));
    } else {
        lemma_put_all_push(enc, l.skip(1), t);
        assert(l.push(t).skip(1) =~= l.skip(1).push(t));
        assert(put_all(enc, l.push(t)) =~= put_all(enc, l) + enc(t));
    }
}

/// The two bytes of a number read back as that number, whatever follows.
pub proof fn lemma_be16(v: u16, rest: Seq<u8>)
    ensures
        get_u16(be16(v) + rest) == Some((v, rest)),
{
    assert((be16(v) + rest).skip(2) =~= rest);
}

/// The low three bytes of a number read back as that number, whatever follows.
pub proof fn lemma_be24(v: u32, rest: Seq<u8>)
    requires
        v <= MAX_U24,
    ensures
        get_u24(be24(v) + rest) == Some((v, rest)),
{
    assert((be24(v) + rest).skip(3) =~= rest);
}

/// The four bytes of a number read back as that number, whatever follows.
pub proof fn lemma_be32(v: u32, rest: Seq<u8>)
    ensures
        get_u32(be32(v) + rest) == Some((v, rest)),
{
    assert((be32(v) + rest).skip(4) =~= rest);
}

/// A byte reads back, whatever follows.
pub proof fn lemma_byte(v: u8, rest: Seq<u8>)
    ensures
        get_u8(seq![v] + rest) == Some((v, rest)),
{
    assert((seq![v] + rest).skip(1) =~= rest);
}

/// A length-prefixed vector whose length fits its prefix is read back, whatever
/// follows it.
pub proof fn lemma_vec_round_trip(s: Seq<u8>, rest: Seq<u8>)
    ensures
        s.len() <= 0xff ==> get_vec8(vec8(s) + rest) == Some((s, rest)),
        s.len() <= 0xffff ==> get_vec16(vec16(s) + rest) == Some((s, rest)),
        s.len() <= MAX_U24 ==> get_vec24(vec24(s) + rest) == Some((s, rest)),
{
    assert((s + rest).take(s.len() as int) =~= s);
    assert((s + rest).skip(s.len() as int) =~= rest);
    assert(vec8(s) + rest =~= seq![s.len() as u8] + (s + rest));
    lemma_byte(s.len() as u8, s + rest);
    assert(vec16(s) + rest =~= be16(s.len() as u16) + (s + rest));
    lemma_be16(s.len() as u16, s + rest);
    assert(vec24(s) + rest =~= be24(s.len() as u32) + (s + rest));
    if s.len() <= MAX_U24 {
        lemma_be24(s.len() as u32, s + rest);
    }
}

/// The eight big-endian bytes of a number read back as that number.
pub proof fn lemma_be64_round_trip(v: u64, rest: Seq<u8>)
    ensures
        be64(v).len() == 8,
        from_be64(be64(v) + rest) == v,
{
    let hi = (v / 0x1_0000_0000) as u32;
    let lo = (v % 0x1_0000_0000) as u32;
    lemma_be32(hi, be32(lo) + rest);
    lemma_be32(lo, rest);
    assert(be64(v) + rest =~= be32(hi) + (be32(lo) + rest));
    assert((be64(v) + rest).skip(4) =~= be32(lo) + rest);
    assert(get_u32(be32(hi) + (be32(lo) + rest)) == Some((hi, be32(lo) + rest)));
    assert(get_u32(be32(lo) + rest) == Some((lo, rest)));
}

/// Appends one byte.
pub fn put_u8(out: &mut Vec<u8>, v: u8)
    ensures
        final(out)@ == old(out)@ + seq![v],
{
    out.push(v);
    assert(out@ =~= old(out)@ + seq![v]);
}

/// Appends the two bytes of `v`.
pub fn put_u16(out: &mut Vec<u8>, v: u16)
    ensures
        final(out)@ == old(out)@ + be16(v),
{
    out.push((v / 256) as u8);
    out.push((v % 256) as u8);
    assert(out@ =~= old(out)@ + be16(v));
}

/// Appends the low three bytes of `v`.
pub fn put_u24(out: &mut Vec<u8>, v: u32)
    ensures
        final(out)@ == old(out)@ + be24(v),
{
    out.push((v / 65536 % 256) as u8);
    out.push((v / 256 % 256) as u8);
    out.push((v % 256) as u8);
    assert(out@ =~= old(out)@ + be24(v));
}

/// Appends the four bytes of `v`.
pub fn put_u32(out: &mut Vec<u8>, v: u32)
    ensures
        final(out)@ == old(out)@ + be32(v),
{
    out.push((v / 16777216) as u8);
    out.push((v / 65536 % 256) as u8);
    out.push((v / 256 % 256) as u8);
    out.push((v % 256) as u8);
    assert(out@ =~= old(out)@ + be32(v));
}

/// Appends the eight bytes of `v`.
pub fn put_u64(out: &mut Vec<u8>, v: u64)
    ensures
        final(out)@ == old(out)@ + be64(v),
{
    put_u32(out, (v / 0x1_0000_0000) as u32);
    put_u32(out, (v % 0x1_0000_0000) as u32);
    assert(out@ =~= old(out)@ + be64(v));
}

/// Appends the bytes of `s`.
pub fn put_slice(out: &mut Vec<u8>, s: &[u8])
    ensures
        final(out)@ == old(out)@ + s@,
{
    out.extend_from_slice(s);
    assert(out@ =~= old(out)@ + s@);
}

/// Appends `body` behind a one-byte length.
pub fn put_vec_u8(out: &mut Vec<u8>, body: &[u8])
    requires
        body.len() <= 0xff,
    ensures
        final(out)@ == old(out)@ + vec8(body@),
{
    out.push(body.len() as u8);
    put_slice(out, body);
    assert(out@ =~= old(out)@ + vec8(body@));
}

/// Appends `body` behind a two-byte length.
pub fn put_vec_u16(out: &mut Vec<u8>, body: &[u8])
    requires
        body.len() <= 0xffff,
    ensures
        final(out)@ == old(out)@ + vec16(body@),
{
    put_u16(out, body.len() as u16);
    put_slice(out, body);
    assert(out@ =~= old(out)@ + vec16(body@));
}

/// Appends `body` behind a three-byte length.
pub fn put_vec_u24(out: &mut Vec<u8>, body: &[u8])
    requires
        body.len() <= MAX_U24,
    ensures
        final(out)@ == old(out)@ + vec24(body@),
{
    put_u24(out, body.len() as u32);
    put_slice(out, body);
    assert(out@ =~= old(out)@ + vec24(body@));
}

/// Appends `body` behind a one-byte length, where that can say its length.
pub fn try_put_vec_u8(out: &mut Vec<u8>, body: &[u8]) -> (r: Result<(), EncodeError>)
    ensures
        body.len() <= 0xff ==> r is Ok && final(out)@ == old(out)@ + vec8(body@),
        body.len() > 0xff ==> r == Err::<(), EncodeError>(EncodeError::Overflow) && final(out)@ == old(out)@,
{
    if body.len() > 0xff {
        return Err(EncodeError::Overflow);
    }
    put_vec_u8(out, body);
    Ok(())
}

/// Appends `body` behind a two-byte length, where that can say its length.
pub fn try_put_vec_u16(out: &mut Vec<u8>, body: &[u8]) -> (r: Result<(), EncodeError>)
    ensures
        body.len() <= 0xffff ==> r is Ok && final(out)@ == old(out)@ + vec16(body@),
        body.len() > 0xffff ==> r == Err::<(), EncodeError>(EncodeError::Overflow) && final(out)@
            == old(out)@,
{
    if body.len() > 0xffff {
        return Err(EncodeError::Overflow);
    }
    put_vec_u16(out, body);
    Ok(())
}

/// A copy of the bytes of `s`.
pub fn to_vec(s: &[u8]) -> (v: Vec<u8>)
    ensures
        v@ == s@,
{
    let mut v: Vec<u8> = Vec::new();
    v.extend_from_slice(s);
    assert(v@ =~= s@);
    v
}

/// The bytes of `s` as an array.
pub fn to_array<const N: usize>(s: &[u8]) -> (r: [u8; N])
    requires
        s.len() == N,
    ensures
        r@ == s@,
{
    let mut r: [u8; N] = vstd::array::array_fill_for_copy_types(0u8);
    let mut i: usize = 0;
    while i < N
        invariant
            i <= N,
            s.len() == N,
            r@.len() == N,
            forall|j: int| 0 <= j < i ==> r@[j] == s@[j],
        decreases N - i,
    {
        r[i] = s[i];
        i = i + 1;
    }
    assert(r@ =~= s@);
    r
}

/// Whether two byte strings are the same.
pub fn bytes_eq(a: &[u8], b: &[u8]) -> (r: bool)
    ensures
        r == (a@ == b@),
{
    if a.len() != b.len() {
        return false;
    }
    let mut i: usize = 0;
    while i < a.len()
        invariant
            i <= a.len(),
            a.len() == b.len(),
            forall|j: int| 0 <= j < i ==> a@[j] == b@[j],
        decreases a.len() - i,
    {
        if a[i] != b[i] {
            return false;
        }
        i = i + 1;
    }
    assert(a@ =~= b@);
    true
}

/// A cursor over received bytes; its view is what is still unread. A read that
/// fails leaves it where it was.
#[derive(Clone, Copy)]
pub struct Reader<'a> {
    data: &'a [u8],
}

impl<'a> View for Reader<'a> {
    type V = Seq<u8>;

    closed spec fn view(&self) -> Seq<u8> {
        self.data@
    }
}

impl<'a> Reader<'a> {
    /// A cursor at the start of `data`.
    pub fn new(data: &'a [u8]) -> (r: Self)
        ensures
            r@ == data@,
    {
        Self { data }
    }

    /// Whether everything has been read.
    pub fn is_empty(&self) -> (r: bool)
        ensures
            r == (self@.len() == 0),
    {
        self.data.len() == 0
    }

    /// How many bytes are unread.
    pub fn len(&self) -> (r: usize)
        ensures
            r == self@.len(),
    {
        self.data.len()
    }

    /// The unread bytes, left unread.
    pub fn rest(&self) -> (r: &'a [u8])
        ensures
            r@ == self@,
    {
        self.data
    }

    /// Succeeds where everything has been read.
    pub fn finish(&self) -> (r: Result<(), DecodeError>)
        ensures
            r == (if self@.len() == 0 {
                Ok::<(), DecodeError>(())
            } else {
                Err::<(), DecodeError>(DecodeError::Trailing)
            }),
    {
        if self.data.len() == 0 {
            Ok(())
        } else {
            Err(DecodeError::Trailing)
        }
    }

    /// The next `n` bytes.
    pub fn take(&mut self, n: usize) -> (r: Result<&'a [u8], DecodeError>)
        ensures
            match get_bytes(old(self)@, n as nat) {
                Some((b, rest)) => r is Ok && r->Ok_0@ == b && final(self)@ == rest,
                None => r == Err::<&'a [u8], DecodeError>(DecodeError::UnexpectedEnd) && final(self)@ == old(self)@,
            },
    {
        if self.data.len() < n {
            return Err(DecodeError::UnexpectedEnd);
        }
        let head = slice_subrange(self.data, 0, n);
        self.data = slice_subrange(self.data, n, self.data.len());
        Ok(head)
    }

    /// Everything unread.
    pub fn take_all(&mut self) -> (r: &'a [u8])
        ensures
            r@ == old(self)@,
            final(self)@.len() == 0,
    {
        let all = self.data;
        self.data = slice_subrange(self.data, self.data.len(), self.data.len());
        all
    }

    /// The next one-byte number.
    pub fn u8(&mut self) -> (r: Result<u8, DecodeError>)
        ensures
            match get_u8(old(self)@) {
                Some((v, rest)) => r == Ok::<u8, DecodeError>(v) && final(self)@ == rest,
                None => r == Err::<u8, DecodeError>(DecodeError::UnexpectedEnd) && final(self)@ == old(self)@,
            },
    {
        if self.data.len() < 1 {
            return Err(DecodeError::UnexpectedEnd);
        }
        let v: u8 = self.data[0];
        self.data = slice_subrange(self.data, 1, self.data.len());
        Ok(v)
    }

    /// The next two-byte number.
    pub fn u16(&mut self) -> (r: Result<u16, DecodeError>)
        ensures
            match get_u16(old(self)@) {
                Some((v, rest)) => r == Ok::<u16, DecodeError>(v) && final(self)@ == rest,
                None => r == Err::<u16, DecodeError>(DecodeError::UnexpectedEnd) && final(self)@ == old(self)@,
            },
    {
        if self.data.len() < 2 {
            return Err(DecodeError::UnexpectedEnd);
        }
        let v: u16 = self.data[0] as u16 * 256 + self.data[1] as u16;
        self.data = slice_subrange(self.data, 2, self.data.len());
        Ok(v)
    }

    /// The next three-byte number.
    pub fn u24(&mut self) -> (r: Result<u32, DecodeError>)
        ensures
            match get_u24(old(self)@) {
                Some((v, rest)) => r == Ok::<u32, DecodeError>(v) && final(self)@ == rest,
                None => r == Err::<u32, DecodeError>(DecodeError::UnexpectedEnd) && final(self)@ == old(self)@,
            },
    {
        if self.data.len() < 3 {
            return Err(DecodeError::UnexpectedEnd);
        }
        let v: u32 = self.data[0] as u32 * 65536 + self.data[1] as u32 * 256 + self.data[2] as u32;
        self.data = slice_subrange(self.data, 3, self.data.len());
        Ok(v)
    }

    /// The next four-byte number.
    pub fn u32(&mut self) -> (r: Result<u32, DecodeError>)
        ensures
            match get_u32(old(self)@) {
                Some((v, rest)) => r == Ok::<u32, DecodeError>(v) && final(self)@ == rest,
                None => r == Err::<u32, DecodeError>(DecodeError::UnexpectedEnd) && final(self)@ == old(self)@,
            },
    {
        if self.data.len() < 4 {
            return Err(DecodeError::UnexpectedEnd);
        }
        let v: u32 = self.data[0] as u32 * 16777216 + self.data[1] as u32 * 65536
            + self.data[2] as u32 * 256 + self.data[3] as u32;
        self.data = slice_subrange(self.data, 4, self.data.len());
        Ok(v)
    }

    /// The body of the next vector with a one-byte length.
    pub fn vec_u8(&mut self) -> (r: Result<&'a [u8], DecodeError>)
        ensures
            match get_vec8(old(self)@) {
                Some((b, rest)) => r is Ok && r->Ok_0@ == b && final(self)@ == rest,
                None => r == Err::<&'a [u8], DecodeError>(DecodeError::UnexpectedEnd) && final(self)@ == old(self)@,
            },
    {
        let mut p = *self;
        let n: u8 = p.u8()?;
        let body = p.take(n as usize)?;
        *self = p;
        Ok(body)
    }

    /// The body of the next vector with a two-byte length.
    pub fn vec_u16(&mut self) -> (r: Result<&'a [u8], DecodeError>)
        ensures
            match get_vec16(old(self)@) {
                Some((b, rest)) => r is Ok && r->Ok_0@ == b && final(self)@ == rest,
                None => r == Err::<&'a [u8], DecodeError>(DecodeError::UnexpectedEnd) && final(self)@ == old(self)@,
            },
    {
        let mut p = *self;
        let n: u16 = p.u16()?;
        let body = p.take(n as usize)?;
        *self = p;
        Ok(body)
    }

    /// The body of the next vector with a three-byte length.
    pub fn vec_u24(&mut self) -> (r: Result<&'a [u8], DecodeError>)
        ensures
            match get_vec24(old(self)@) {
                Some((b, rest)) => r is Ok && r->Ok_0@ == b && final(self)@ == rest,
                None => r == Err::<&'a [u8], DecodeError>(DecodeError::UnexpectedEnd) && final(self)@ == old(self)@,
            },
    {
        let mut p = *self;
        let n: u32 = p.u24()?;
        let body = p.take(n as usize)?;
        *self = p;
        Ok(body)
    }

    /// A cursor over the body of the next vector with a one-byte length.
    pub fn sub_u8(&mut self) -> (r: Result<Reader<'a>, DecodeError>)
        ensures
            match get_vec8(old(self)@) {
                Some((b, rest)) => r is Ok && r->Ok_0@ == b && final(self)@ == rest,
                None => r == Err::<Reader<'a>, DecodeError>(DecodeError::UnexpectedEnd) && final(self)@ == old(self)@,
            },
    {
        let body = self.vec_u8()?;
        Ok(Reader::new(body))
    }

    /// A cursor over the body of the next vector with a two-byte length.
    pub fn sub_u16(&mut self) -> (r: Result<Reader<'a>, DecodeError>)
        ensures
            match get_vec16(old(self)@) {
                Some((b, rest)) => r is Ok && r->Ok_0@ == b && final(self)@ == rest,
                None => r == Err::<Reader<'a>, DecodeError>(DecodeError::UnexpectedEnd) && final(self)@ == old(self)@,
            },
    {
        let body = self.vec_u16()?;
        Ok(Reader::new(body))
    }

    /// A cursor over the body of the next vector with a three-byte length.
    pub fn sub_u24(&mut self) -> (r: Result<Reader<'a>, DecodeError>)
        ensures
            match get_vec24(old(self)@) {
                Some((b, rest)) => r is Ok && r->Ok_0@ == b && final(self)@ == rest,
                None => r == Err::<Reader<'a>, DecodeError>(DecodeError::UnexpectedEnd) && final(self)@ == old(self)@,
            },
    {
        let body = self.vec_u24()?;
        Ok(Reader::new(body))
    }
}

} // verus!
