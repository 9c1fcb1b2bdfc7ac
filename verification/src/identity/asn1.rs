//! Distinguished Encoding Rules: tag-length-value elements and the primitive
//! types that certificates are made of.

use vstd::prelude::*;
use vstd::slice::slice_subrange;

use crate::codec::bytes_eq;

verus! {

/// Why bytes are not the DER that was asked for.
#[derive(Debug, Clone, Copy, PartialEq, Eq, Structural)]
pub enum DerError {
    Underflow,
    BadTag,
    BadLength,
    Trailing,
    BadInteger,
    BadOid,
    BadBitString,
    BadBool,
    NotConstructed,
    Mismatch,
}

/// An identifier octet.
#[derive(Debug, Clone, Copy, PartialEq, Eq, Structural)]
pub struct Tag(pub u8);

impl Tag {
    pub const BOOLEAN: u8 = 0x01;

    pub const INTEGER: u8 = 0x02;

    pub const BIT_STRING: u8 = 0x03;

    pub const OCTET_STRING: u8 = 0x04;

    pub const NULL: u8 = 0x05;

    pub const OID: u8 = 0x06;

    pub const UTF8_STRING: u8 = 0x0c;

    pub const PRINTABLE_STRING: u8 = 0x13;

    pub const TELETEX_STRING: u8 = 0x14;

    pub const IA5_STRING: u8 = 0x16;

    pub const UTC_TIME: u8 = 0x17;

    pub const GENERALIZED_TIME: u8 = 0x18;

    pub const SEQUENCE: u8 = 0x30;

    pub const SET: u8 = 0x31;

    /// The context-specific tag numbered by the low five bits of `n`.
    pub fn context(n: u8, constructed: bool) -> (r: Self)
        ensures
            r.0 == context_tag(n, constructed),
    {
        if constructed {
            Self(0xa0 + n % 32)
        } else {
            Self(0x80 + n % 32)
        }
    }

    /// Whether the contents are themselves elements.
    pub fn is_constructed(&self) -> (r: bool)
        ensures
            r == (self.0 / 32 % 2 == 1),
    {
        self.0 / 32 % 2 == 1
    }
}

/// Class bits 10, the constructed bit, and a tag number below 32.
pub open spec fn context_tag(n: u8, constructed: bool) -> u8 {
    ((if constructed { 0xa0int } else { 0x80int }) + n % 32) as u8
}

/// The number that big-endian bytes of any length stand for.
pub open spec fn be_nat(s: Seq<u8>) -> nat
    decreases s.len(),
{
    if s.len() == 0 {
        0
    } else {
        be_nat(s.drop_last()) * 256 + s.last() as nat
    }
}

/// 256 to the power `n`.
pub open spec fn pow256(n: nat) -> nat
    decreases n,
{
    if n == 0 {
        1
    } else {
        256 * pow256((n - 1) as nat)
    }
}

/// `n` bytes stand for a number below `pow256(n)`.
pub proof fn lemma_be_nat_bound(s: Seq<u8>)
    ensures
        be_nat(s) < pow256(s.len()),
    decreases s.len(),
{
    if s.len() > 0 {
        lemma_be_nat_bound(s.drop_last());
    }
}

/// `pow256` grows with its argument.
proof fn lemma_pow256_monotone(a: nat, b: nat)
    requires
        a <= b,
    ensures
        pow256(a) <= pow256(b),
        pow256(a) >= 1,
    decreases b,
{
    if b > 0 {
        if a == b {
            lemma_pow256_monotone((a - 1) as nat, (b - 1) as nat);
        } else {
            lemma_pow256_monotone(a, (b - 1) as nat);
        }
    }
}

proof fn lemma_pow256_values()
    ensures
        pow256(4) == 0x1_0000_0000,
        pow256(8) == 0x1_0000_0000_0000_0000,
{
    reveal_with_fuel(pow256, 9);
}

/// The length at the front of `s` and what follows it: one byte below 0x80, or
/// the count of length bytes and those bytes, no longer than necessary and no
/// longer than a machine word.
pub open spec fn der_length(s: Seq<u8>) -> Result<(nat, Seq<u8>), DerError> {
    if s.len() == 0 {
        Err(DerError::Underflow)
    } else if s[0] < 0x80 {
        Ok((s[0] as nat, s.skip(1)))
    } else {
        let n = s[0] - 0x80;
        if n == 0 || n > usize::BITS / 8 {
            Err(DerError::BadLength)
        } else if s.len() < 1 + n {
            Err(DerError::Underflow)
        } else if s[1] == 0 || be_nat(s.subrange(1, 1 + n)) < 0x80 {
            Err(DerError::BadLength)
        } else {
            Ok((be_nat(s.subrange(1, 1 + n)), s.skip(1 + n)))
        }
    }
}

/// The element at the front of `s`: its tag, its contents, and what follows it.
pub open spec fn der_tlv(s: Seq<u8>) -> Result<(u8, Seq<u8>, Seq<u8>), DerError> {
    if s.len() == 0 {
        Err(DerError::Underflow)
    } else if s[0] == 0 || s[0] % 32 == 31 {
        Err(DerError::BadTag)
    } else {
        match der_length(s.skip(1)) {
            Ok((n, body)) => if body.len() < n {
                Err(DerError::Underflow)
            } else {
                Ok((s[0], body.take(n as int), body.skip(n as int)))
            },
            Err(e) => Err(e),
        }
    }
}

/// What follows the element at the front of `s`, or `s` where there is none.
pub open spec fn after_tlv(s: Seq<u8>) -> Seq<u8> {
    match der_tlv(s) {
        Ok((_, _, rest)) => rest,
        Err(_) => s,
    }
}

/// The contents of the element at the front of `s`, which must have tag `tag`.
pub open spec fn der_tagged(s: Seq<u8>, tag: u8) -> Result<Seq<u8>, DerError> {
    match der_tlv(s) {
        Ok((t, contents, _)) => if t == tag {
            Ok(contents)
        } else {
            Err(DerError::Mismatch)
        },
        Err(e) => Err(e),
    }
}

/// Whether the identifier octet at the front of `s` is `tag`.
pub open spec fn starts_with_tag(s: Seq<u8>, tag: u8) -> bool {
    s.len() > 0 && s[0] == tag
}

/// The contents of the element at the front of `s` where it has tag `tag`.
pub open spec fn der_optional(s: Seq<u8>, tag: u8) -> Result<Option<Seq<u8>>, DerError> {
    if starts_with_tag(s, tag) {
        match der_tagged(s, tag) {
            Ok(c) => Ok(Some(c)),
            Err(e) => Err(e),
        }
    } else {
        Ok(None)
    }
}

/// What `der_optional` leaves unread.
pub open spec fn after_optional(s: Seq<u8>, tag: u8) -> Seq<u8> {
    if starts_with_tag(s, tag) {
        after_tlv(s)
    } else {
        s
    }
}

/// Whether `s` is a list of base-128 numbers, each without a leading zero digit
/// and the last one complete.
pub open spec fn is_oid(s: Seq<u8>) -> bool {
    &&& s.len() > 0
    &&& s.last() < 0x80
    &&& forall|i: int|
        0 <= i < s.len() && (i == 0 || s[i - 1] < 0x80) ==> #[trigger] s[i] != 0x80
}

/// Whether `s` is a non-negative integer without a redundant leading zero.
pub open spec fn is_uint(s: Seq<u8>) -> bool {
    &&& s.len() > 0
    &&& s[0] < 0x80
    &&& !(s.len() >= 2 && s[0] == 0 && s[1] < 0x80)
}

/// 2 to the power `bits`, for fewer than eight bits.
pub open spec fn pow2_below_8(bits: u8) -> u8 {
    if bits == 0 {
        1
    } else if bits == 1 {
        2
    } else if bits == 2 {
        4
    } else if bits == 3 {
        8
    } else if bits == 4 {
        16
    } else if bits == 5 {
        32
    } else if bits == 6 {
        64
    } else {
        128
    }
}

/// Whether `s` is a count of unused bits and the octets they end, in which the
/// unused bits are zero.
pub open spec fn is_bit_string(s: Seq<u8>) -> bool {
    &&& s.len() > 0
    &&& s[0] <= 7
    &&& s.len() == 1 ==> s[0] == 0
    &&& s.len() > 1 ==> s.last() % pow2_below_8(s[0]) == 0
}

/// The magnitude bytes of an integer: without the zero that keeps the sign.
pub open spec fn magnitude_bytes(s: Seq<u8>) -> Seq<u8> {
    if s.len() >= 2 && s[0] == 0 {
        s.skip(1)
    } else {
        s
    }
}

/// The contents of the OBJECT IDENTIFIER at the front of `s`.
pub open spec fn der_oid(s: Seq<u8>) -> Result<Seq<u8>, DerError> {
    match der_tagged(s, Tag::OID) {
        Ok(c) => if is_oid(c) {
            Ok(c)
        } else {
            Err(DerError::BadOid)
        },
        Err(e) => Err(e),
    }
}

/// The contents of the non-negative INTEGER at the front of `s`.
pub open spec fn der_uint(s: Seq<u8>) -> Result<Seq<u8>, DerError> {
    match der_tagged(s, Tag::INTEGER) {
        Ok(c) => if is_uint(c) {
            Ok(c)
        } else {
            Err(DerError::BadInteger)
        },
        Err(e) => Err(e),
    }
}

/// The value of an integer's contents, where it fits 64 bits.
pub open spec fn uint_value(c: Seq<u8>) -> Result<u64, DerError> {
    if magnitude_bytes(c).len() > 8 {
        Err(DerError::BadInteger)
    } else {
        Ok(be_nat(magnitude_bytes(c)) as u64)
    }
}

/// The value of the BOOLEAN at the front of `s`.
pub open spec fn der_bool(s: Seq<u8>) -> Result<bool, DerError> {
    match der_tagged(s, Tag::BOOLEAN) {
        Ok(c) => if c.len() == 1 && c[0] == 0 {
            Ok(false)
        } else if c.len() == 1 && c[0] == 0xff {
            Ok(true)
        } else {
            Err(DerError::BadBool)
        },
        Err(e) => Err(e),
    }
}

/// The contents of a BIT STRING, checked.
pub open spec fn checked_bit_string(c: Seq<u8>) -> Result<Seq<u8>, DerError> {
    if is_bit_string(c) {
        Ok(c)
    } else {
        Err(DerError::BadBitString)
    }
}

/// The contents of the BIT STRING at the front of `s`.
pub open spec fn der_bit_string(s: Seq<u8>) -> Result<Seq<u8>, DerError> {
    match der_tagged(s, Tag::BIT_STRING) {
        Ok(c) => checked_bit_string(c),
        Err(e) => Err(e),
    }
}

/// The contents of the BIT STRING at the front of `s` where it has tag `tag`.
pub open spec fn der_optional_bit_string(s: Seq<u8>, tag: u8) -> Result<Option<Seq<u8>>, DerError> {
    match der_optional(s, tag) {
        Ok(Some(c)) => match checked_bit_string(c) {
            Ok(b) => Ok(Some(b)),
            Err(e) => Err(e),
        },
        Ok(None) => Ok(None),
        Err(e) => Err(e),
    }
}

/// The octets of a BIT STRING's contents, where it is a whole number of them.
pub open spec fn bit_string_octets(c: Seq<u8>) -> Result<Seq<u8>, DerError> {
    if c[0] == 0 {
        Ok(c.skip(1))
    } else {
        Err(DerError::BadBitString)
    }
}

/// The octets of the BIT STRING at the front of `s`.
pub open spec fn der_octets(s: Seq<u8>) -> Result<Seq<u8>, DerError> {
    match der_bit_string(s) {
        Ok(c) => bit_string_octets(c),
        Err(e) => Err(e),
    }
}

/// An element that is all of `s`: the contents behind tag `tag`.
pub open spec fn der_whole(s: Seq<u8>, tag: u8) -> Result<Seq<u8>, DerError> {
    match der_tagged(s, tag) {
        Ok(c) => if after_tlv(s).len() == 0 {
            Ok(c)
        } else {
            Err(DerError::Trailing)
        },
        Err(e) => Err(e),
    }
}

/// The big-endian bytes of `n`, without leading zeros.
pub open spec fn minimal_be(n: nat) -> Seq<u8>
    decreases n,
{
    if n == 0 {
        Seq::empty()
    } else {
        minimal_be(n / 256).push((n % 256) as u8)
    }
}

/// The one length encoding of `n`.
pub open spec fn der_length_bytes(n: nat) -> Seq<u8> {
    if n < 0x80 {
        seq![n as u8]
    } else {
        seq![(0x80 + minimal_be(n).len()) as u8] + minimal_be(n)
    }
}

/// The one encoding of the element with tag `tag` and contents `contents`.
pub open spec fn der_tlv_bytes(tag: u8, contents: Seq<u8>) -> Seq<u8> {
    seq![tag] + der_length_bytes(contents.len()) + contents
}

proof fn lemma_minimal_be(n: nat)
    ensures
        be_nat(minimal_be(n)) == n,
        n > 0 ==> minimal_be(n).len() > 0 && minimal_be(n)[0] != 0,
        n > 0 ==> pow256((minimal_be(n).len() - 1) as nat) <= n,
    decreases n,
{
    if n > 0 {
        lemma_minimal_be(n / 256);
        let s = minimal_be(n);
        assert(s.drop_last() =~= minimal_be(n / 256));
        assert(be_nat(s) == n);
        if n / 256 > 0 {
            assert(s[0] == minimal_be(n / 256)[0]);
            let k = (minimal_be(n / 256).len() - 1) as nat;
            assert(pow256((s.len() - 1) as nat) == 256 * pow256(k));
        } else {
            assert(minimal_be(n / 256) =~= Seq::empty());
        }
    }
}

proof fn lemma_minimal_be_unique(s: Seq<u8>)
    requires
        s.len() > 0,
        s[0] != 0,
    ensures
        minimal_be(be_nat(s)) == s,
        be_nat(s) > 0,
    decreases s.len(),
{
    let t = s.drop_last();
    let n = be_nat(s);
    assert(n == be_nat(t) * 256 + s.last());
    assert(n / 256 == be_nat(t) && n % 256 == s.last());
    if t.len() > 0 {
        assert(t[0] == s[0]);
        lemma_minimal_be_unique(t);
        assert(minimal_be(n) =~= s);
    } else {
        assert(t =~= Seq::empty());
        assert(minimal_be(0) =~= Seq::<u8>::empty());
        assert(minimal_be(n) =~= s);
    }
}

/// An element has one encoding only: the bytes before what follows it are those
/// that its tag and contents determine.
pub proof fn law_der_canonical(s: Seq<u8>)
    ensures
        match der_tlv(s) {
            Ok((tag, contents, rest)) => s == der_tlv_bytes(tag, contents) + rest,
            Err(_) => true,
        },
{
    if let Ok((tag, contents, rest)) = der_tlv(s) {
        let t = s.skip(1);
        if t[0] < 0x80 {
            assert(contents.len() == t[0]);
            assert(s =~= der_tlv_bytes(tag, contents) + rest);
        } else {
            let n = t[0] - 0x80;
            let b = t.subrange(1, 1 + n);
            assert(b[0] == t[1]);
            lemma_minimal_be_unique(b);
            assert(contents.len() == be_nat(b));
            assert(s =~= der_tlv_bytes(tag, contents) + rest);
        }
    }
}

/// The encoding of an element reads back as that element, whatever follows.
pub proof fn law_der_round_trip(tag: u8, contents: Seq<u8>, rest: Seq<u8>)
    requires
        tag != 0,
        tag % 32 != 31,
        contents.len() <= usize::MAX,
    ensures
        der_tlv(der_tlv_bytes(tag, contents) + rest) == Ok::<(u8, Seq<u8>, Seq<u8>), DerError>(
            (tag, contents, rest),
        ),
{
    let s = der_tlv_bytes(tag, contents) + rest;
    let n = contents.len();
    let t = s.skip(1);
    lemma_minimal_be(n);
    lemma_pow256_values();
    let m = minimal_be(n);
    if n < 0x80 {
        assert(t =~= seq![n as u8] + contents + rest);
        assert(t.skip(1) =~= contents + rest);
    } else {
        if m.len() > usize::BITS / 8 {
            lemma_pow256_monotone((usize::BITS / 8) as nat, (m.len() - 1) as nat);
            assert(false);
        }
        assert(t =~= seq![(0x80 + m.len()) as u8] + m + contents + rest);
        assert(t.subrange(1, 1 + m.len() as int) =~= m);
        assert(t[1] == m[0]);
        assert(t.skip(1 + m.len() as int) =~= contents + rest);
    }
    assert((contents + rest).take(n as int) =~= contents);
    assert((contents + rest).skip(n as int) =~= rest);
}

/// An element reads the same whatever is put behind it.
pub proof fn lemma_tlv_extends(s: Seq<u8>, more: Seq<u8>)
    ensures
        der_tlv(s) matches Ok((tag, contents, rest)) ==> der_tlv(s + more) == Ok::<
            (u8, Seq<u8>, Seq<u8>),
            DerError,
        >((tag, contents, rest + more)),
{
    if let Ok((tag, contents, rest)) = der_tlv(s) {
        let t = s.skip(1);
        let u = (s + more).skip(1);
        assert(u =~= t + more);
        if t[0] < 0x80 {
            assert(u.skip(1) =~= t.skip(1) + more);
        } else {
            let n = t[0] - 0x80;
            assert(u.subrange(1, 1 + n) =~= t.subrange(1, 1 + n));
            assert(u.skip(1 + n) =~= t.skip(1 + n) + more);
        }
        let (n, body) = der_length(t)->Ok_0;
        assert((body + more).take(n as int) =~= body.take(n as int));
        assert((body + more).skip(n as int) =~= body.skip(n as int) + more);
    }
}

/// Reading an element takes at least its identifier and length octets.
pub proof fn lemma_tlv_consumes(s: Seq<u8>)
    ensures
        match der_tlv(s) {
            Ok((tag, contents, rest)) => {
                &&& rest.len() + contents.len() + 2 <= s.len()
                &&& tag == s[0]
            },
            Err(_) => true,
        },
        after_tlv(s).len() <= s.len(),
{
}

/// The value of big-endian bytes that fit 64 bits.
fn be_value(s: &[u8]) -> (r: u64)
    requires
        s.len() <= 8,
    ensures
        r == be_nat(s@),
        be_nat(s@) < pow256(s@.len()),
{
    let mut v: u64 = 0;
    let mut i: usize = 0;
    assert(s@.take(0) =~= Seq::empty());
    while i < s.len()
        invariant
            i <= s.len() <= 8,
            v == be_nat(s@.take(i as int)),
        decreases s.len() - i,
    {
        proof {
            assert(s@.take(i + 1).drop_last() =~= s@.take(i as int));
            lemma_be_nat_bound(s@.take(i + 1));
            lemma_pow256_monotone((i + 1) as nat, 8);
            lemma_pow256_values();
        }
        v = v * 256 + s[i] as u64;
        i = i + 1;
    }
    proof {
        assert(s@.take(i as int) =~= s@);
        lemma_be_nat_bound(s@);
    }
    v
}

/// An element: its tag and its contents.
#[derive(Debug, Clone, Copy)]
pub struct Tlv<'a> {
    pub tag: Tag,
    pub contents: &'a [u8],
}

impl<'a> Tlv<'a> {
    /// The element at the front of `input`, and what follows it.
    pub fn parse_one(input: &'a [u8]) -> (r: Result<(Self, &'a [u8]), DerError>)
        ensures
            match der_tlv(input@) {
                Ok((tag, contents, rest)) => {
                    &&& r is Ok
                    &&& r->Ok_0.0.tag.0 == tag
                    &&& r->Ok_0.0.contents@ == contents
                    &&& r->Ok_0.1@ == rest
                },
                Err(e) => r == Err::<(Self, &'a [u8]), DerError>(e),
            },
    {
        if input.len() == 0 {
            return Err(DerError::Underflow);
        }
        let tag: u8 = input[0];
        if tag == 0 || tag % 32 == 31 {
            return Err(DerError::BadTag);
        }
        let after_tag = slice_subrange(input, 1, input.len());
        assert(after_tag@ =~= input@.skip(1));
        let (length, after_length) = Self::parse_length(after_tag)?;
        if after_length.len() < length {
            return Err(DerError::Underflow);
        }
        let contents = slice_subrange(after_length, 0, length);
        let rest = slice_subrange(after_length, length, after_length.len());
        assert(contents@ =~= after_length@.take(length as int));
        assert(rest@ =~= after_length@.skip(length as int));
        Ok((Self { tag: Tag(tag), contents }, rest))
    }

    /// The length at the front of `input`, and what follows it.
    fn parse_length(input: &'a [u8]) -> (r: Result<(usize, &'a [u8]), DerError>)
        ensures
            match der_length(input@) {
                Ok((n, rest)) => r is Ok && r->Ok_0.0 == n && r->Ok_0.1@ == rest,
                Err(e) => r == Err::<(usize, &'a [u8]), DerError>(e),
            },
    {
        if input.len() == 0 {
            return Err(DerError::Underflow);
        }
        let first: u8 = input[0];
        let after = slice_subrange(input, 1, input.len());
        assert(after@ =~= input@.skip(1));
        if first < 0x80 {
            return Ok((first as usize, after));
        }
        let n: usize = (first - 0x80) as usize;
        if n == 0 || n > usize::BITS as usize / 8 {
            return Err(DerError::BadLength);
        }
        if after.len() < n {
            return Err(DerError::Underflow);
        }
        let len_bytes = slice_subrange(after, 0, n);
        let rest = slice_subrange(after, n, after.len());
        assert(len_bytes@ =~= input@.subrange(1, 1 + n));
        assert(rest@ =~= input@.skip(1 + n as int));
        if len_bytes[0] == 0 {
            return Err(DerError::BadLength);
        }
        let len: u64 = be_value(len_bytes);
        if len < 0x80 {
            return Err(DerError::BadLength);
        }
        proof {
            lemma_pow256_monotone(n as nat, (usize::BITS / 8) as nat);
            lemma_pow256_values();
        }
        Ok((len as usize, rest))
    }
}

/// An object identifier's contents octets.
#[derive(Debug, Clone, Copy, PartialEq, Eq)]
pub struct Oid<'a> {
    bytes: &'a [u8],
}

impl<'a> View for Oid<'a> {
    type V = Seq<u8>;

    closed spec fn view(&self) -> Seq<u8> {
        self.bytes@
    }
}

impl<'a> Oid<'a> {
    #[verifier::type_invariant]
    spec fn valid(self) -> bool {
        is_oid(self.bytes@)
    }

    /// Accepts contents octets in which every subidentifier is minimal and
    /// complete.
    pub fn from_bytes(bytes: &'a [u8]) -> (r: Result<Self, DerError>)
        ensures
            is_oid(bytes@) ==> r is Ok && r->Ok_0@ == bytes@,
            !is_oid(bytes@) ==> r == Err::<Self, DerError>(DerError::BadOid),
    {
        if bytes.len() == 0 {
            return Err(DerError::BadOid);
        }
        let mut start = true;
        let mut i: usize = 0;
        while i < bytes.len()
            invariant
                i <= bytes.len(),
                start == (i == 0 || bytes@[i - 1] < 0x80),
                forall|j: int|
                    0 <= j < i && (j == 0 || bytes@[j - 1] < 0x80) ==> #[trigger] bytes@[j] != 0x80,
            decreases bytes.len() - i,
        {
            if start && bytes[i] == 0x80 {
                return Err(DerError::BadOid);
            }
            start = bytes[i] < 0x80;
            i = i + 1;
        }
        if !start {
            return Err(DerError::BadOid);
        }
        Ok(Self { bytes })
    }

    /// The contents octets.
    pub fn as_bytes(&self) -> (r: &'a [u8])
        ensures
            r@ == self@,
            is_oid(self@),
    {
        proof {
            use_type_invariant(self);
        }
        self.bytes
    }

    /// Whether the contents octets are `expected`.
    pub fn is(self, expected: &[u8]) -> (r: bool)
        ensures
            r == (self@ == expected@),
    {
        bytes_eq(self.bytes, expected)
    }
}

/// A non-negative integer's contents octets.
#[derive(Debug, Clone, Copy, PartialEq, Eq)]
pub struct Uint<'a> {
    encoded: &'a [u8],
}

impl<'a> View for Uint<'a> {
    type V = Seq<u8>;

    closed spec fn view(&self) -> Seq<u8> {
        self.encoded@
    }
}

impl<'a> Uint<'a> {
    #[verifier::type_invariant]
    spec fn valid(self) -> bool {
        is_uint(self.encoded@)
    }

    /// Accepts the minimal contents octets of a non-negative integer.
    pub fn from_bytes(encoded: &'a [u8]) -> (r: Result<Self, DerError>)
        ensures
            is_uint(encoded@) ==> r is Ok && r->Ok_0@ == encoded@,
            !is_uint(encoded@) ==> r == Err::<Self, DerError>(DerError::BadInteger),
    {
        if encoded.len() == 0 || encoded[0] >= 0x80 || (encoded.len() >= 2 && encoded[0] == 0
            && encoded[1] < 0x80) {
            return Err(DerError::BadInteger);
        }
        Ok(Self { encoded })
    }

    /// The contents octets.
    pub fn as_bytes(&self) -> (r: &'a [u8])
        ensures
            r@ == self@,
            is_uint(self@),
    {
        proof {
            use_type_invariant(self);
        }
        self.encoded
    }

    /// The contents octets without the zero that keeps the sign.
    pub fn magnitude(self) -> (r: &'a [u8])
        ensures
            r@ == magnitude_bytes(self@),
    {
        if self.encoded.len() >= 2 && self.encoded[0] == 0 {
            let r = slice_subrange(self.encoded, 1, self.encoded.len());
            assert(r@ =~= self.encoded@.skip(1));
            r
        } else {
            self.encoded
        }
    }

    /// Whether the integer is zero.
    pub fn is_zero(self) -> (r: bool)
        ensures
            r == (self@ == seq![0u8]),
            r == (be_nat(self@) == 0),
    {
        proof {
            use_type_invariant(&self);
            let s = self.encoded@;
            if s.len() >= 2 && s[0] == 0 {
                assert(s.skip(1)[0] == s[1]);
                lemma_minimal_be_unique(s.skip(1));
                lemma_be_nat_skip_zero(s);
            } else if s[0] != 0 {
                lemma_minimal_be_unique(s);
            } else {
                assert(s.drop_last() =~= Seq::empty());
                assert(be_nat(s.drop_last()) == 0);
                assert(s =~= seq![0u8]);
            }
        }
        self.encoded.len() == 1 && self.encoded[0] == 0
    }

    /// The value, where it fits 64 bits.
    pub fn to_u64(&self) -> (r: Result<u64, DerError>)
        ensures
            r == uint_value(self@),
            r matches Ok(v) ==> v == be_nat(self@),
    {
        let bytes = self.magnitude();
        if bytes.len() > 8 {
            return Err(DerError::BadInteger);
        }
        proof {
            let s = self.encoded@;
            if s.len() >= 2 && s[0] == 0 {
                lemma_be_nat_skip_zero(s);
            }
        }
        let v: u64 = be_value(bytes);
        Ok(v)
    }
}

/// A leading zero byte does not change the number.
proof fn lemma_be_nat_skip_zero(s: Seq<u8>)
    requires
        s.len() > 0,
        s[0] == 0,
    ensures
        be_nat(s.skip(1)) == be_nat(s),
    decreases s.len(),
{
    if s.len() == 1 {
        assert(s.skip(1) =~= Seq::empty());
        assert(s.drop_last() =~= Seq::empty());
    } else {
        lemma_be_nat_skip_zero(s.drop_last());
        assert(s.skip(1).drop_last() =~= s.drop_last().skip(1));
    }
}

/// A bit string's contents octets: the count of unused bits, then the bits.
#[derive(Debug, Clone, Copy, PartialEq, Eq)]
pub struct BitString<'a> {
    contents: &'a [u8],
}

impl<'a> View for BitString<'a> {
    type V = Seq<u8>;

    closed spec fn view(&self) -> Seq<u8> {
        self.contents@
    }
}

impl<'a> BitString<'a> {
    #[verifier::type_invariant]
    spec fn valid(self) -> bool {
        is_bit_string(self.contents@)
    }

    /// Accepts contents octets whose unused bits are fewer than eight and zero.
    pub fn from_bytes(contents: &'a [u8]) -> (r: Result<Self, DerError>)
        ensures
            is_bit_string(contents@) ==> r is Ok && r->Ok_0@ == contents@,
            !is_bit_string(contents@) ==> r == Err::<Self, DerError>(DerError::BadBitString),
    {
        if contents.len() == 0 {
            return Err(DerError::BadBitString);
        }
        let unused: u8 = contents[0];
        if unused > 7 {
            return Err(DerError::BadBitString);
        }
        if contents.len() == 1 {
            if unused != 0 {
                return Err(DerError::BadBitString);
            }
        } else {
            let last: u8 = contents[contents.len() - 1];
            if last % low_bits(unused) != 0 {
                return Err(DerError::BadBitString);
            }
        }
        Ok(Self { contents })
    }

    /// The octets that hold the bits.
    pub fn as_bytes(&self) -> (r: &'a [u8])
        ensures
            r@ == self@.skip(1),
            is_bit_string(self@),
    {
        proof {
            use_type_invariant(self);
        }
        let r = slice_subrange(self.contents, 1, self.contents.len());
        assert(r@ =~= self@.skip(1));
        r
    }

    /// How many low bits of the last octet are not part of the string.
    pub fn unused_bits(self) -> (r: u8)
        ensures
            r == self@[0],
            r <= 7,
    {
        proof {
            use_type_invariant(&self);
        }
        self.contents[0]
    }

    /// The octets, where the string is a whole number of them.
    pub fn octets(self) -> (r: Result<&'a [u8], DerError>)
        ensures
            match bit_string_octets(self@) {
                Ok(b) => r is Ok && r->Ok_0@ == b,
                Err(e) => r == Err::<&'a [u8], DerError>(e),
            },
    {
        if self.unused_bits() == 0 {
            Ok(self.as_bytes())
        } else {
            Err(DerError::BadBitString)
        }
    }
}

pub(crate) fn low_bits(bits: u8) -> (r: u8)
    ensures
        r == pow2_below_8(bits),
        r > 0,
{
    match bits {
        0 => 1,
        1 => 2,
        2 => 4,
        3 => 8,
        4 => 16,
        5 => 32,
        6 => 64,
        _ => 128,
    }
}

/// A cursor over DER elements; its view is what is still unread. Each read takes
/// one whole element where there is one, accepted or not.
#[derive(Clone, Copy)]
pub struct Reader<'a> {
    bytes: &'a [u8],
}

impl<'a> View for Reader<'a> {
    type V = Seq<u8>;

    closed spec fn view(&self) -> Seq<u8> {
        self.bytes@
    }
}

impl<'a> Reader<'a> {
    /// A cursor at the start of `bytes`.
    pub fn new(bytes: &'a [u8]) -> (r: Self)
        ensures
            r@ == bytes@,
    {
        Self { bytes }
    }

    /// Whether everything has been read.
    pub fn is_empty(&self) -> (r: bool)
        ensures
            r == (self@.len() == 0),
    {
        self.bytes.len() == 0
    }

    /// Succeeds where everything has been read.
    pub fn finish(self) -> (r: Result<(), DerError>)
        ensures
            self@.len() == 0 ==> r == Ok::<(), DerError>(()),
            self@.len() != 0 ==> r == Err::<(), DerError>(DerError::Trailing),
    {
        if self.bytes.len() == 0 {
            Ok(())
        } else {
            Err(DerError::Trailing)
        }
    }

    /// The next element.
    pub fn read_tlv(&mut self) -> (r: Result<Tlv<'a>, DerError>)
        ensures
            match der_tlv(old(self)@) {
                Ok((tag, contents, _)) => {
                    &&& r is Ok
                    &&& r->Ok_0.tag.0 == tag
                    &&& r->Ok_0.contents@ == contents
                },
                Err(e) => r == Err::<Tlv<'a>, DerError>(e),
            },
            final(self)@ == after_tlv(old(self)@),
    {
        let (tlv, rest) = Tlv::parse_one(self.bytes)?;
        self.bytes = rest;
        Ok(tlv)
    }

    /// The contents of the next element, which must have tag `tag`.
    pub fn read_tagged(&mut self, tag: Tag) -> (r: Result<&'a [u8], DerError>)
        ensures
            match der_tagged(old(self)@, tag.0) {
                Ok(c) => r is Ok && r->Ok_0@ == c,
                Err(e) => r == Err::<&'a [u8], DerError>(e),
            },
            final(self)@ == after_tlv(old(self)@),
    {
        let tlv = self.read_tlv()?;
        if tlv.tag != tag {
            return Err(DerError::Mismatch);
        }
        Ok(tlv.contents)
    }

    /// The next element, an OBJECT IDENTIFIER.
    pub fn read_oid(&mut self) -> (r: Result<Oid<'a>, DerError>)
        ensures
            match der_oid(old(self)@) {
                Ok(c) => r is Ok && r->Ok_0@ == c,
                Err(e) => r == Err::<Oid<'a>, DerError>(e),
            },
            final(self)@ == after_tlv(old(self)@),
    {
        let c = self.read_tagged(Tag(Tag::OID))?;
        Oid::from_bytes(c)
    }

    /// The next element, a non-negative INTEGER.
    pub fn read_uint(&mut self) -> (r: Result<Uint<'a>, DerError>)
        ensures
            match der_uint(old(self)@) {
                Ok(c) => r is Ok && r->Ok_0@ == c,
                Err(e) => r == Err::<Uint<'a>, DerError>(e),
            },
            final(self)@ == after_tlv(old(self)@),
    {
        let c = self.read_tagged(Tag(Tag::INTEGER))?;
        Uint::from_bytes(c)
    }

    /// The next element, a BOOLEAN.
    pub fn read_bool(&mut self) -> (r: Result<bool, DerError>)
        ensures
            r == der_bool(old(self)@),
            final(self)@ == after_tlv(old(self)@),
    {
        let c = self.read_tagged(Tag(Tag::BOOLEAN))?;
        if c.len() != 1 {
            return Err(DerError::BadBool);
        }
        if c[0] == 0 {
            Ok(false)
        } else if c[0] == 0xff {
            Ok(true)
        } else {
            Err(DerError::BadBool)
        }
    }

    /// The next element, a BIT STRING.
    pub fn read_bit_string(&mut self) -> (r: Result<BitString<'a>, DerError>)
        ensures
            match der_bit_string(old(self)@) {
                Ok(c) => r is Ok && r->Ok_0@ == c,
                Err(e) => r == Err::<BitString<'a>, DerError>(e),
            },
            final(self)@ == after_tlv(old(self)@),
    {
        let c = self.read_tagged(Tag(Tag::BIT_STRING))?;
        BitString::from_bytes(c)
    }

    /// The octets of the next element, a BIT STRING.
    pub fn read_octets(&mut self) -> (r: Result<&'a [u8], DerError>)
        ensures
            match der_octets(old(self)@) {
                Ok(c) => r is Ok && r->Ok_0@ == c,
                Err(e) => r == Err::<&'a [u8], DerError>(e),
            },
            final(self)@ == after_tlv(old(self)@),
    {
        let b = self.read_bit_string()?;
        b.octets()
    }

    /// The next element, a BIT STRING under tag `tag`, where it has that tag.
    pub fn read_optional_bit_string(&mut self, tag: Tag) -> (r: Result<
        Option<BitString<'a>>,
        DerError,
    >)
        ensures
            match der_optional_bit_string(old(self)@, tag.0) {
                Ok(Some(c)) => r matches Ok(Some(b)) && b@ == c,
                Ok(None) => r matches Ok(None),
                Err(e) => r == Err::<Option<BitString<'a>>, DerError>(e),
            },
            final(self)@ == after_optional(old(self)@, tag.0),
    {
        match self.read_optional(tag)? {
            Some(c) => {
                let b = BitString::from_bytes(c)?;
                Ok(Some(b))
            },
            None => Ok(None),
        }
    }

    /// The identifier octet of the next element.
    pub fn peek_tag(&self) -> (r: Option<Tag>)
        ensures
            self@.len() == 0 ==> r is None,
            self@.len() > 0 ==> r == Some(Tag(self@[0])),
    {
        if self.bytes.len() == 0 {
            None
        } else {
            Some(Tag(self.bytes[0]))
        }
    }

    /// The contents of the next element, where it has tag `tag`.
    pub fn read_optional(&mut self, tag: Tag) -> (r: Result<Option<&'a [u8]>, DerError>)
        ensures
            match der_optional(old(self)@, tag.0) {
                Ok(Some(c)) => r matches Ok(Some(b)) && b@ == c,
                Ok(None) => r matches Ok(None),
                Err(e) => r == Err::<Option<&'a [u8]>, DerError>(e),
            },
            final(self)@ == after_optional(old(self)@, tag.0),
    {
        if self.bytes.len() > 0 && self.bytes[0] == tag.0 {
            let c = self.read_tagged(tag)?;
            Ok(Some(c))
        } else {
            Ok(None)
        }
    }

    /// The unread bytes.
    pub fn bytes_remaining(&self) -> (r: &'a [u8])
        ensures
            r@ == self@,
    {
        self.bytes
    }
}

/// Reads `der` as one element with tag `tag` and nothing behind it.
pub fn read_whole<'a>(der: &'a [u8], tag: Tag) -> (r: Result<&'a [u8], DerError>)
    ensures
        match der_whole(der@, tag.0) {
            Ok(c) => r is Ok && r->Ok_0@ == c,
            Err(e) => r == Err::<&'a [u8], DerError>(e),
        },
{
    let mut reader = Reader::new(der);
    let c = reader.read_tagged(tag)?;
    reader.finish()?;
    Ok(c)
}

} // verus!
