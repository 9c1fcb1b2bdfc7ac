//! Distinguished names: their syntax, when two of them are the same name, and a
//! digest that the same names share.

use vstd::prelude::*;
use vstd::utf8::{decode_utf8, valid_utf8};

use crate::codec::{be32, be64, bytes_eq, put_slice, put_u32, put_u64};
use crate::crypto::hash::{digest_of, hashable, sha256, Algorithm};
use crate::identity::asn1::{
    after_tlv, be_nat, der_oid, der_tagged, der_tlv, lemma_be_nat_bound, lemma_tlv_consumes, pow256,
    DerError, Oid, Reader, Tag, Tlv,
};
use crate::identity::cert::{lift, Error};

use self::profile::{can_prepare, prepared, Profile};

pub mod profile;

verus! {

/// How many attributes a relative distinguished name may have.
pub const MAX_ATTRIBUTES_PER_RDN: usize = 64;

pub const DOMAIN_COMPONENT_OID: [u8; 10] = [
    0x09,
    0x92,
    0x26,
    0x89,
    0x93,
    0xf2,
    0x2c,
    0x64,
    0x01,
    0x19,
];

/// An attribute of a name: its type, and the tag and contents of its value.
pub struct AttributeView {
    pub oid: Seq<u8>,
    pub tag: u8,
    pub contents: Seq<u8>,
}

/// Whether an attribute type holds directory strings, which are compared without
/// regard to case.
pub open spec fn is_case_ignore_oid(oid: Seq<u8>) -> bool {
    &&& oid.len() == 3
    &&& oid[0] == 0x55
    &&& oid[1] == 0x04
    &&& {
        let a = oid[2];
        3 <= a <= 13 || a == 15 || 17 <= a <= 19 || a == 27 || 41 <= a <= 44 || a == 46 || a == 51 || a
            == 54 || a == 65 || a == 97
    }
}

/// Whether a byte may stand in a PrintableString.
pub open spec fn is_printable(b: u8) -> bool {
    (0x30 <= b <= 0x39) || (0x41 <= b <= 0x5a) || (0x61 <= b <= 0x7a) || b == 0x20 || b == 0x27 || b
        == 0x28 || b == 0x29 || b == 0x2b || b == 0x2c || b == 0x2d || b == 0x2e || b == 0x2f || b == 0x3a
        || b == 0x3d || b == 0x3f
}

/// The characters of a UTF8String or PrintableString; `None` for another type of
/// value.
pub open spec fn characters(tag: u8, contents: Seq<u8>) -> Result<Option<Seq<char>>, Error> {
    if tag == Tag::UTF8_STRING {
        if valid_utf8(contents) {
            Ok(Some(decode_utf8(contents)))
        } else {
            Err(Error::BadName)
        }
    } else if tag == Tag::PRINTABLE_STRING {
        if forall|i: int| 0 <= i < contents.len() ==> is_printable(#[trigger] contents[i]) {
            Ok(Some(Seq::new(contents.len(), |i: int| contents[i] as char)))
        } else {
            Err(Error::BadName)
        }
    } else {
        Ok(None)
    }
}

/// The characters of an attribute that is compared as a directory string.
pub open spec fn directory_string(a: AttributeView) -> Result<Option<Seq<char>>, Error> {
    if is_case_ignore_oid(a.oid) {
        characters(a.tag, a.contents)
    } else {
        Ok(None)
    }
}

/// Whether an attribute is a domain component, which is compared without regard
/// to the case of ASCII letters.
pub open spec fn is_domain_label(a: AttributeView) -> bool {
    &&& a.oid == DOMAIN_COMPONENT_OID@
    &&& a.tag == Tag::IA5_STRING
    &&& forall|i: int| 0 <= i < a.contents.len() ==> #[trigger] a.contents[i] < 0x80
}

/// Why an attribute's value is not acceptable, if it is not.
#[verifier::opaque]
pub open spec fn check_value(a: AttributeView) -> Result<(), Error> {
    match characters(a.tag, a.contents) {
        Err(e) => Err(e),
        Ok(Some(s)) => if is_case_ignore_oid(a.oid) && !can_prepare(s) {
            Err(Error::BadName)
        } else {
            Ok(())
        },
        Ok(None) => Ok(()),
    }
}

/// Why an attribute cannot be digested, if it cannot.
#[verifier::opaque]
pub open spec fn check_digest(a: AttributeView) -> Result<(), Error> {
    match directory_string(a) {
        Err(e) => Err(e),
        Ok(s) => if s is Some && !can_prepare(s->0) {
            Err(Error::BadName)
        } else if !hashable(comparable_bytes(comparable(a))) {
            Err(Error::TooManyEntries)
        } else {
            Ok(())
        },
    }
}

/// The attribute at the front of `s`.
#[verifier::opaque]
pub open spec fn attribute_at(s: Seq<u8>) -> Result<AttributeView, DerError> {
    match der_tagged(s, Tag::SEQUENCE) {
        Err(e) => Err(e),
        Ok(c) => match der_oid(c) {
            Err(e) => Err(e),
            Ok(oid) => match der_tlv(after_tlv(c)) {
                Err(e) => Err(e),
                Ok((tag, contents, rest)) => if rest.len() > 0 {
                    Err(DerError::Trailing)
                } else {
                    Ok(AttributeView { oid, tag, contents })
                },
            },
        },
    }
}

/// Reading an attribute leaves less to read.
pub proof fn lemma_attribute_consumes(s: Seq<u8>)
    ensures
        attribute_at(s) is Ok ==> after_tlv(s).len() < s.len(),
{
    reveal(attribute_at);
    lemma_tlv_consumes(s);
}

/// The attributes in `s`, of which `n` have gone before: each acceptable (or,
/// where `keyed`, such that it can be digested), no more than there may be, and
/// at least one.
#[verifier::opaque]
pub open spec fn attributes(s: Seq<u8>, n: nat, keyed: bool) -> Result<Seq<AttributeView>, Error>
    decreases s.len(),
{
    if s.len() == 0 {
        if n == 0 {
            Err(Error::BadName)
        } else {
            Ok(Seq::empty())
        }
    } else {
        match attribute_at(s) {
            Err(e) => Err(Error::Der(e)),
            Ok(a) => match if keyed {
                check_digest(a)
            } else {
                check_value(a)
            } {
                Err(e) => Err(e),
                Ok(_) => if n + 1 > MAX_ATTRIBUTES_PER_RDN {
                    Err(Error::TooManyEntries)
                } else {
                    proof {
                        lemma_attribute_consumes(s);
                    }
                    match attributes(after_tlv(s), n + 1, keyed) {
                        Err(e) => Err(e),
                        Ok(l) => Ok(seq![a] + l),
                    }
                },
            },
        }
    }
}

/// The relative distinguished names in `s`, each as its attributes.
pub open spec fn rdns(s: Seq<u8>, keyed: bool) -> Result<Seq<Seq<AttributeView>>, Error>
    decreases s.len(),
{
    if s.len() == 0 {
        Ok(Seq::empty())
    } else {
        match der_tagged(s, Tag::SET) {
            Err(e) => Err(Error::Der(e)),
            Ok(c) => match attributes(c, 0, keyed) {
                Err(e) => Err(e),
                Ok(l) => {
                    proof {
                        lemma_tlv_consumes(s);
                    }
                    match rdns(after_tlv(s), keyed) {
                        Err(e) => Err(e),
                        Ok(rest) => Ok(seq![l] + rest),
                    }
                },
            },
        }
    }
}

/// An ASCII byte in lower case.
pub open spec fn lower_byte(b: u8) -> u8 {
    if 0x41 <= b <= 0x5a {
        (b + 32) as u8
    } else {
        b
    }
}

/// Bytes with their upper-case ASCII letters in lower case.
pub open spec fn lower_bytes(s: Seq<u8>) -> Seq<u8> {
    Seq::new(s.len(), |i: int| lower_byte(s[i]))
}

/// What counts of an attribute when it is compared.
pub enum Comparable {
    /// A domain component's type and its value in lower case.
    Domain(Seq<u8>, Seq<u8>),
    /// The type and the prepared characters of a directory string.
    Directory(Seq<u8>, Seq<char>),
    /// The type, tag and contents of any other value.
    Exact(Seq<u8>, u8, Seq<u8>),
}

/// What counts of `a` when it is compared.
pub open spec fn comparable(a: AttributeView) -> Comparable {
    if is_domain_label(a) {
        Comparable::Domain(a.oid, lower_bytes(a.contents))
    } else {
        match directory_string(a) {
            Ok(Some(s)) => Comparable::Directory(a.oid, prepared(s)),
            _ => Comparable::Exact(a.oid, a.tag, a.contents),
        }
    }
}

/// Characters as four bytes each.
pub open spec fn char_bytes(s: Seq<char>) -> Seq<u8>
    decreases s.len(),
{
    if s.len() == 0 {
        Seq::empty()
    } else {
        char_bytes(s.drop_last()) + be32(s.last() as u32)
    }
}

/// The bytes that are digested for an attribute.
pub open spec fn comparable_bytes(c: Comparable) -> Seq<u8> {
    match c {
        Comparable::Domain(oid, v) => be64(oid.len() as u64) + oid + seq![1u8] + v,
        Comparable::Directory(oid, v) => be64(oid.len() as u64) + oid + seq![2u8] + char_bytes(v),
        Comparable::Exact(oid, tag, v) => be64(oid.len() as u64) + oid + seq![3u8, tag] + be64(
            v.len() as u64,
        ) + v,
    }
}

/// What counts of each of a list of attributes.
pub open spec fn comparables(l: Seq<AttributeView>) -> Seq<Comparable> {
    l.map_values(|a: AttributeView| comparable(a))
}

/// Whether two sets of attributes hold the same, whatever their order.
pub open spec fn same_attributes(l: Seq<AttributeView>, r: Seq<AttributeView>) -> bool {
    comparables(l).to_multiset() == comparables(r).to_multiset()
}

/// Whether two relative distinguished names are acceptable and the same.
pub open spec fn rdns_match(l: Seq<u8>, r: Seq<u8>) -> bool {
    match (attributes(l, 0, false), attributes(r, 0, false)) {
        (Ok(a), Ok(b)) => same_attributes(a, b),
        _ => false,
    }
}

/// Whether two names are acceptable and the same, one relative distinguished
/// name after the other.
pub open spec fn names_match(l: Seq<u8>, r: Seq<u8>) -> bool
    decreases l.len(),
{
    if l.len() == 0 || r.len() == 0 {
        l.len() == 0 && r.len() == 0
    } else {
        match (der_tlv(l), der_tlv(r)) {
            (Ok((lt, lc, _)), Ok((rt, rc, _))) => {
                proof {
                    lemma_tlv_consumes(l);
                }
                lt == Tag::SET && rt == Tag::SET && rdns_match(lc, rc) && names_match(
                    after_tlv(l),
                    after_tlv(r),
                )
            },
            _ => false,
        }
    }
}

/// Whether two encodings are of the same name: they are the same bytes, or they
/// match.
pub open spec fn same_name(l: Seq<u8>, r: Seq<u8>) -> bool {
    l == r || names_match(l, r)
}

/// The sum of the digests of a list of attributes.
pub open spec fn digest_sum(l: Seq<Comparable>) -> nat {
    l.fold_left(0nat, |sum: nat, c: Comparable| sum + comparable_digest(c))
}

/// An attribute's digest as a number.
pub open spec fn comparable_digest(c: Comparable) -> nat {
    be_nat(digest_of(Algorithm::Sha256, comparable_bytes(c)))
}

/// The low `len` bytes of `n`, most significant first.
pub open spec fn be_bytes(n: nat, len: nat) -> Seq<u8>
    decreases len,
{
    if len == 0 {
        Seq::empty()
    } else {
        be_bytes(n / 256, (len - 1) as nat).push((n % 256) as u8)
    }
}

/// The bytes that stand for a relative distinguished name in a name's digest: how
/// many attributes it has, and the sum of their digests in 32 bytes.
#[verifier::opaque]
pub open spec fn rdn_bytes(l: Seq<AttributeView>) -> Seq<u8> {
    be64(l.len() as u64) + be_bytes(digest_sum(comparables(l)), 32)
}

/// The bytes that stand for the first relative distinguished names of a name.
pub open spec fn rdns_bytes(l: Seq<Seq<AttributeView>>) -> Seq<u8>
    decreases l.len(),
{
    if l.len() == 0 {
        Seq::empty()
    } else {
        rdns_bytes(l.drop_last()) + rdn_bytes(l.last())
    }
}

/// The digest of a name.
pub open spec fn name_key(der: Seq<u8>) -> Result<Seq<u8>, Error> {
    match rdns(der, true) {
        Err(e) => Err(e),
        Ok(l) => {
            let input = rdns_bytes(l) + be64(l.len() as u64);
            if hashable(input) {
                Ok(digest_of(Algorithm::Sha256, input))
            } else {
                Err(Error::TooManyEntries)
            }
        },
    }
}

/// A prefixed byte adds its multiple of a power of 256.
proof fn lemma_be_nat_front(s: Seq<u8>)
    requires
        s.len() > 0,
    ensures
        be_nat(s) == s[0] * pow256((s.len() - 1) as nat) + be_nat(s.skip(1)),
    decreases s.len(),
{
    if s.len() == 1 {
        assert(s.skip(1) =~= Seq::empty());
        assert(s.drop_last() =~= Seq::empty());
        assert(be_nat(s.drop_last()) == 0);
        assert(pow256(0) == 1);
        assert(s[0] * pow256(0) == s[0]);
        assert(be_nat(s.skip(1)) == 0);
        assert(s.last() == s[0]);
    } else {
        let t = s.drop_last();
        lemma_be_nat_front(t);
        assert(s.skip(1).last() == s.last());
        assert(be_nat(s.skip(1)) == be_nat(s.skip(1).drop_last()) * 256 + s.last());
        assert(t[0] == s[0]);
        assert(t.skip(1) =~= s.skip(1).drop_last());
        let p = pow256((t.len() - 1) as nat);
        assert(pow256((s.len() - 1) as nat) == 256 * p);
        assert((s[0] * p + be_nat(t.skip(1))) * 256 == s[0] * (256 * p) + be_nat(t.skip(1)) * 256)
            by (nonlinear_arith);
    }
}

/// The bytes of a number below the bound are the bytes it was read from.
proof fn lemma_be_bytes_of_nat(s: Seq<u8>)
    ensures
        be_bytes(be_nat(s), s.len()) == s,
    decreases s.len(),
{
    if s.len() > 0 {
        lemma_be_bytes_of_nat(s.drop_last());
        assert(be_bytes(be_nat(s), s.len()) =~= s);
    } else {
        assert(s =~= Seq::empty());
    }
}

/// Only the remainder counts for the low bytes.
proof fn lemma_be_bytes_mod(n: nat, len: nat)
    ensures
        be_bytes(n % pow256(len), len) == be_bytes(n, len),
        pow256(len) > 0,
    decreases len,
{
    if len > 0 {
        let m = (len - 1) as nat;
        lemma_be_bytes_mod(n / 256, m);
        let p = pow256(m);
        assert(pow256(len) == 256 * p);
        let r = n % (256 * p);
        vstd::arithmetic::div_mod::lemma_mod_breakdown(n as int, 256, p as int);
        assert(r == 256 * ((n / 256) % p) + n % 256);
        assert(r / 256 == (n / 256) % p && r % 256 == n % 256);
    }
}

/// The sum of attribute digests modulo 2^256. Addition makes the sum independent
/// of the order of a DER SET while it keeps how often an attribute occurs.
struct AttributeSetHash {
    sum: [u8; 32],
}

impl AttributeSetHash {
    fn new() -> (r: Self)
        ensures
            r.sum@ == be_bytes(0, 32),
    {
        let sum: [u8; 32] = [0u8;32];
        proof {
            lemma_be_bytes_zero(32);
            assert(sum@ =~= Seq::new(32, |i: int| 0u8));
        }
        Self { sum }
    }

    /// Adds a digest.
    fn insert(&mut self, digest: [u8; 32], Ghost(total): Ghost<nat>)
        requires
            old(self).sum@ == be_bytes(total, 32),
        ensures
            final(self).sum@ == be_bytes(total + be_nat(digest@), 32),
    {
        let ghost a = self.sum@;
        let ghost b = digest@;
        let mut out: [u8; 32] = self.sum;
        let mut carry: u16 = 0;
        let mut i: usize = 32;
        assert(a.skip(32) =~= Seq::empty());
        assert(b.skip(32) =~= Seq::empty());
        assert(out@.skip(32) =~= Seq::empty());
        assert(pow256(0) == 1);
        while i > 0
            invariant
                i <= 32,
                carry <= 1,
                a.len() == 32,
                b == digest@,
                out@.len() == 32,
                out@.take(i as int) == a.take(i as int),
                be_nat(out@.skip(i as int)) + carry * pow256((32 - i) as nat) == be_nat(
                    a.skip(i as int),
                ) + be_nat(b.skip(i as int)),
            decreases i,
        {
            let ghost before = out@;
            let ghost low = out@.skip(i as int);
            let ghost c0 = carry as int;
            i = i - 1;
            assert(out@[i as int] == a[i as int]) by {
                assert(out@.take(i + 1)[i as int] == a.take(i + 1)[i as int]);
            }
            let value: u16 = out[i] as u16 + digest[i] as u16 + carry;
            out[i] = (value % 256) as u8;
            carry = value / 256;
            proof {
                let s = out@.skip(i as int);
                let p = pow256((31 - i) as nat);
                assert(pow256((32 - i) as nat) == 256 * p);
                lemma_be_nat_front(s);
                lemma_be_nat_front(a.skip(i as int));
                lemma_be_nat_front(b.skip(i as int));
                assert(s.skip(1) =~= low);
                assert(a.skip(i as int).skip(1) =~= a.skip(i + 1));
                assert(b.skip(i as int).skip(1) =~= b.skip(i + 1));
                let x = a[i as int] as int;
                let y = b[i as int] as int;
                let d = (value % 256) as int;
                let c1 = carry as int;
                assert(x + y + c0 == d + 256 * c1);
                assert(x * p + y * p + c0 * p == d * p + c1 * (256 * p)) by (nonlinear_arith)
                    requires
                        x + y + c0 == d + 256 * c1,
                ;
                assert(out@.take(i as int) =~= before.take(i + 1).take(i as int));
                assert(a.take(i as int) =~= a.take(i + 1).take(i as int));
            }
        }
        proof {
            assert(out@.skip(0) =~= out@);
            assert(a.skip(0) =~= a);
            assert(b.skip(0) =~= b);
            lemma_be_nat_bound(out@);
            let p = pow256(32);
            let n = be_nat(a) + be_nat(b);
            let m = total + be_nat(b);
            assert(be_nat(out@) == n % p) by (nonlinear_arith)
                requires
                    be_nat(out@) + carry * p == n,
                    be_nat(out@) < p,
            {
                vstd::arithmetic::div_mod::lemma_fundamental_div_mod_converse(
                    n as int,
                    p as int,
                    carry as int,
                    be_nat(out@) as int,
                );
            }
            lemma_be_nat_of_bytes(total, 32);
            vstd::arithmetic::div_mod::lemma_add_mod_noop(total as int, be_nat(b) as int, p as int);
            vstd::arithmetic::div_mod::lemma_add_mod_noop(be_nat(a) as int, be_nat(b) as int, p as int);
            vstd::arithmetic::div_mod::lemma_mod_twice(total as int, p as int);
            assert(n % p == m % p);
            lemma_be_bytes_of_nat(out@);
            lemma_be_bytes_mod(m, 32);
        }
        self.sum = out;
    }
}

proof fn lemma_be_bytes_zero(len: nat)
    ensures
        be_bytes(0, len) == Seq::new(len, |i: int| 0u8),
    decreases len,
{
    if len > 0 {
        lemma_be_bytes_zero((len - 1) as nat);
        assert(be_bytes(0, len) =~= Seq::new(len, |i: int| 0u8));
    } else {
        assert(be_bytes(0, len) =~= Seq::new(len, |i: int| 0u8));
    }
}

/// Reading the low bytes of a number gives it modulo the bound.
proof fn lemma_be_nat_of_bytes(n: nat, len: nat)
    ensures
        be_nat(be_bytes(n, len)) == n % pow256(len),
        be_bytes(n, len).len() == len,
        pow256(len) > 0,
    decreases len,
{
    if len > 0 {
        let m = (len - 1) as nat;
        lemma_be_nat_of_bytes(n / 256, m);
        let p = pow256(m);
        assert(pow256(len) == 256 * p);
        vstd::arithmetic::div_mod::lemma_mod_breakdown(n as int, 256, p as int);
        assert(be_bytes(n, len).drop_last() =~= be_bytes(n / 256, m));
    } else {
        assert(n % 1 == 0);
    }
}

/// An attribute of a name.
#[derive(Clone, Copy)]
struct Attribute<'a> {
    oid: Oid<'a>,
    value: Tlv<'a>,
}

impl<'a> View for Attribute<'a> {
    type V = AttributeView;

    closed spec fn view(&self) -> AttributeView {
        AttributeView { oid: self.oid@, tag: self.value.tag.0, contents: self.value.contents@ }
    }
}

/// The next attribute.
fn read_attribute<'a>(reader: &mut Reader<'a>) -> (r: Result<Attribute<'a>, Error>)
    ensures
        match attribute_at(old(reader)@) {
            Ok(a) => r is Ok && r->Ok_0@ == a && final(reader)@ == after_tlv(old(reader)@),
            Err(e) => r is Err && r->Err_0 == Error::Der(e),
        },
{
    reveal(attribute_at);
    let sequence = lift(reader.read_tagged(Tag(Tag::SEQUENCE)))?;
    let mut entry = Reader::new(sequence);
    let oid = lift(entry.read_oid())?;
    let value = lift(entry.read_tlv())?;
    lift(entry.finish())?;
    Ok(Attribute { oid, value })
}

/// `core::str::from_utf8`: the string whose UTF-8 encoding the bytes are, where
/// they are one.
#[verifier::external_body]
fn from_utf8(bytes: &[u8]) -> (r: Option<&str>)
    ensures
        match r {
            Some(s) => valid_utf8(bytes@) && s@ == decode_utf8(bytes@),
            None => !valid_utf8(bytes@),
        },
{
    core::str::from_utf8(bytes).ok()
}

fn chars_of(s: &str) -> (r: Vec<char>)
    ensures
        r@ == s@,
{
    let mut out: Vec<char> = Vec::new();
    for c in it: s.chars()
        invariant
            it.seq() == s@,
            out@ == s@.take(it.index()),
    {
        out.push(c);
        assert(s@.take(it.index() + 1) =~= s@.take(it.index()).push(c));
    }
    assert(s@.take(s@.len() as int) =~= s@);
    out
}

fn printable(byte: u8) -> (r: bool)
    ensures
        r == is_printable(byte),
{
    (byte >= 0x30 && byte <= 0x39) || (byte >= 0x41 && byte <= 0x5a) || (byte >= 0x61 && byte <= 0x7a)
        || byte == 0x20 || byte == 0x27 || byte == 0x28 || byte == 0x29 || byte == 0x2b || byte == 0x2c
        || byte == 0x2d || byte == 0x2e || byte == 0x2f || byte == 0x3a || byte == 0x3d || byte == 0x3f
}

/// Whether `r` is the list of characters `s`, or the same error.
spec fn yields(r: Result<Option<Vec<char>>, Error>, s: Result<Option<Seq<char>>, Error>) -> bool {
    match s {
        Ok(Some(c)) => r is Ok && r->Ok_0 is Some && r->Ok_0->0@ == c,
        Ok(None) => r is Ok && r->Ok_0 is None,
        Err(e) => r is Err && r->Err_0 == e,
    }
}

fn string_value(value: Tlv<'_>) -> (r: Result<Option<Vec<char>>, Error>)
    ensures
        yields(r, characters(value.tag.0, value.contents@)),
{
    let contents = value.contents;
    if value.tag.0 == Tag::UTF8_STRING {
        return match from_utf8(contents) {
            Some(s) => Ok(Some(chars_of(s))),
            None => Err(Error::BadName),
        };
    }
    if value.tag.0 != Tag::PRINTABLE_STRING {
        return Ok(None);
    }
    let mut out: Vec<char> = Vec::new();
    let mut i: usize = 0;
    while i < contents.len()
        invariant
            i <= contents.len(),
            contents@ == value.contents@,
            value.tag.0 == Tag::PRINTABLE_STRING,
            forall|j: int| 0 <= j < i ==> is_printable(#[trigger] contents@[j]),
            out@.len() == i,
            forall|j: int| 0 <= j < i ==> #[trigger] out@[j] == contents@[j] as char,
        decreases contents.len() - i,
    {
        if !printable(contents[i]) {
            assert(!is_printable(contents@[i as int]));
            return Err(Error::BadName);
        }
        out.push(contents[i] as char);
        i = i + 1;
    }
    proof {
        let c = contents@;
        assert(out@ =~= Seq::new(c.len(), |i: int| c[i] as char));
    }
    Ok(Some(out))
}

fn case_ignore_oid(oid: Oid<'_>) -> (r: bool)
    ensures
        r == is_case_ignore_oid(oid@),
{
    let b = oid.as_bytes();
    if b.len() != 3 || b[0] != 0x55 || b[1] != 0x04 {
        return false;
    }
    let a: u8 = b[2];
    (a >= 3 && a <= 13) || a == 15 || (a >= 17 && a <= 19) || a == 27 || (a >= 41 && a <= 44) || a == 46
        || a == 51 || a == 54 || a == 65 || a == 97
}

fn case_ignore_string(attribute: Attribute<'_>) -> (r: Result<Option<Vec<char>>, Error>)
    ensures
        yields(r, directory_string(attribute@)),
{
    if case_ignore_oid(attribute.oid) {
        string_value(attribute.value)
    } else {
        Ok(None)
    }
}

fn is_domain_component(attribute: Attribute<'_>) -> (r: bool)
    ensures
        r == is_domain_label(attribute@),
{
    if !attribute.oid.is(&DOMAIN_COMPONENT_OID) || attribute.value.tag.0 != Tag::IA5_STRING {
        return false;
    }
    let contents = attribute.value.contents;
    let mut i: usize = 0;
    while i < contents.len()
        invariant
            i <= contents.len(),
            contents@ == attribute@.contents,
            forall|j: int| 0 <= j < i ==> #[trigger] contents@[j] < 0x80,
        decreases contents.len() - i,
    {
        if contents[i] >= 0x80 {
            assert(attribute@.contents[i as int] >= 0x80);
            return false;
        }
        i = i + 1;
    }
    true
}

fn to_lower(s: &[u8]) -> (r: Vec<u8>)
    ensures
        r@ == lower_bytes(s@),
{
    let mut out: Vec<u8> = Vec::new();
    let mut i: usize = 0;
    while i < s.len()
        invariant
            i <= s.len(),
            out@ == lower_bytes(s@.take(i as int)),
        decreases s.len() - i,
    {
        let b: u8 = s[i];
        if b >= 0x41 && b <= 0x5a {
            out.push(b + 32);
        } else {
            out.push(b);
        }
        i = i + 1;
        assert(out@ =~= lower_bytes(s@.take(i as int)));
    }
    assert(s@.take(s@.len() as int) =~= s@);
    out
}

fn validate_directory_string(value: &Vec<char>) -> (r: Result<(), Error>)
    ensures
        can_prepare(value@) ==> r == Ok::<(), Error>(()),
        !can_prepare(value@) ==> r == Err::<(), Error>(Error::BadName),
{
    if Profile::is_valid(value) {
        Ok(())
    } else {
        Err(Error::BadName)
    }
}

fn validate_attribute(attribute: Attribute<'_>) -> (r: Result<(), Error>)
    ensures
        r == check_value(attribute@),
{
    reveal(check_value);
    match case_ignore_string(attribute)? {
        Some(value) => validate_directory_string(&value),
        None => {
            string_value(attribute.value)?;
            Ok(())
        },
    }
}

/// The attributes of a relative distinguished name.
fn parse_rdn<'a>(der: &'a [u8]) -> (r: Result<Vec<Attribute<'a>>, Error>)
    ensures
        match attributes(der@, 0, false) {
            Ok(l) => r is Ok && attribute_views(r->Ok_0@) == l,
            Err(e) => r is Err && r->Err_0 == e,
        },
{
    reveal(attributes);
    let mut reader = Reader::new(der);
    let mut out: Vec<Attribute<'a>> = Vec::new();
    let ghost all = attributes(der@, 0, false);
    assert(attribute_views(out@) =~= Seq::empty());
    proof {
        if let Ok(l) = all {
            assert(l =~= attribute_views(out@) + l);
        }
    }
    while !reader.is_empty()
        invariant
            all == attributes(der@, 0, false),
            all == ahead(attribute_views(out@), attributes(reader@, out@.len(), false)),
        decreases reader@.len(),
    {
        let ghost before = reader@;
        let ghost done = attribute_views(out@);
        proof {
            reveal(attributes);
            lemma_attribute_consumes(before);
        }
        let attribute = read_attribute(&mut reader)?;
        validate_attribute(attribute)?;
        if out.len() >= MAX_ATTRIBUTES_PER_RDN {
            return Err(Error::TooManyEntries);
        }
        out.push(attribute);
        proof {
            assert(attribute_views(out@) =~= done.push(attribute@));
            if let Ok(l) = attributes(reader@, out@.len(), false) {
                assert(done + (seq![attribute@] + l) =~= attribute_views(out@) + l);
            }
        }
    }
    if out.len() == 0 {
        return Err(Error::BadName);
    }
    assert(attribute_views(out@) + Seq::empty() =~= attribute_views(out@));
    Ok(out)
}

spec fn attribute_views(l: Seq<Attribute<'_>>) -> Seq<AttributeView> {
    l.map_values(|a: Attribute<'_>| a@)
}

/// What was read before, in front of what follows.
spec fn ahead<T>(done: Seq<T>, rest: Result<Seq<T>, Error>) -> Result<Seq<T>, Error> {
    match rest {
        Ok(l) => Ok(done + l),
        Err(e) => Err(e),
    }
}

fn validate_name(der: &[u8]) -> (r: Result<(), Error>)
    ensures
        match rdns(der@, false) {
            Ok(_) => r is Ok,
            Err(e) => r is Err && r->Err_0 == e,
        },
{
    let mut name = Reader::new(der);
    while !name.is_empty()
        invariant
            match rdns(name@, false) {
                Ok(_) => rdns(der@, false) is Ok,
                Err(e) => rdns(der@, false) == Err::<Seq<Seq<AttributeView>>, Error>(e),
            },
        decreases name@.len(),
    {
        proof {
            lemma_tlv_consumes(name@);
        }
        let rdn = lift(name.read_tagged(Tag(Tag::SET)))?;
        parse_rdn(rdn)?;
    }
    Ok(())
}

fn put_chars(out: &mut Vec<u8>, s: &Vec<char>)
    ensures
        final(out)@ == old(out)@ + char_bytes(s@),
{
    let ghost start = out@;
    let mut i: usize = 0;
    assert(s@.take(0) =~= Seq::empty());
    while i < s.len()
        invariant
            i <= s.len(),
            out@ == start + char_bytes(s@.take(i as int)),
        decreases s.len() - i,
    {
        put_u32(out, s[i] as u32);
        i = i + 1;
        assert(s@.take(i as int).drop_last() =~= s@.take(i - 1));
        assert(out@ =~= start + char_bytes(s@.take(i as int)));
    }
    assert(s@.take(i as int) =~= s@);
}

fn hash_attribute(attribute: Attribute<'_>) -> (r: Result<[u8; 32], Error>)
    ensures
        match check_digest(attribute@) {
            Ok(_) => r is Ok && r->Ok_0@ == digest_of(
                Algorithm::Sha256,
                comparable_bytes(comparable(attribute@)),
            ),
            Err(e) => r is Err && r->Err_0 == e,
        },
{
    reveal(check_digest);
    let mut input: Vec<u8> = Vec::new();
    let oid = attribute.oid.as_bytes();
    put_u64(&mut input, oid.len() as u64);
    put_slice(&mut input, oid);
    let contents = attribute.value.contents;
    if is_domain_component(attribute) {
        assert(!is_case_ignore_oid(attribute@.oid));
        input.push(1);
        let lower = to_lower(contents);
        put_slice(&mut input, lower.as_slice());
    } else {
        match case_ignore_string(attribute)? {
            Some(value) => {
                input.push(2);
                validate_directory_string(&value)?;
                put_chars(&mut input, &Profile::prepare(&value));
            },
            None => {
                input.push(3);
                input.push(attribute.value.tag.0);
                put_u64(&mut input, contents.len() as u64);
                put_slice(&mut input, contents);
            },
        }
    }
    assert(input@ =~= comparable_bytes(comparable(attribute@)));
    if input.len() as u64 > 0x1000_0000_0000_0000 {
        return Err(Error::TooManyEntries);
    }
    Ok(sha256(input.as_slice()))
}

/// The bytes that stand for a relative distinguished name in a name's digest.
fn hash_rdn(der: &[u8]) -> (r: Result<Vec<u8>, Error>)
    ensures
        match attributes(der@, 0, true) {
            Ok(l) => r is Ok && r->Ok_0@ == rdn_bytes(l),
            Err(e) => r is Err && r->Err_0 == e,
        },
{
    reveal(attributes);
    let mut reader = Reader::new(der);
    let mut sum = AttributeSetHash::new();
    let mut count: usize = 0;
    let ghost all = attributes(der@, 0, true);
    let ghost mut done = Seq::<AttributeView>::empty();
    proof {
        if let Ok(l) = all {
            assert(l =~= done + l);
        }
        assert(comparables(done) =~= Seq::empty());
    }
    while !reader.is_empty()
        invariant
            all == attributes(der@, 0, true),
            all == ahead(done, attributes(reader@, done.len(), true)),
            count == done.len(),
            count <= MAX_ATTRIBUTES_PER_RDN,
            sum.sum@ == be_bytes(digest_sum(comparables(done)), 32),
        decreases reader@.len(),
    {
        let ghost before = done;
        proof {
            reveal(attributes);
            lemma_attribute_consumes(reader@);
        }
        let attribute = read_attribute(&mut reader)?;
        let digest = hash_attribute(attribute)?;
        if count >= MAX_ATTRIBUTES_PER_RDN {
            return Err(Error::TooManyEntries);
        }
        sum.insert(digest, Ghost(digest_sum(comparables(done))));
        count = count + 1;
        proof {
            done = done.push(attribute@);
            if let Ok(l) = attributes(reader@, done.len(), true) {
                assert(before + (seq![attribute@] + l) =~= done + l);
            }
            lemma_digest_sum_push(before, attribute@);
        }
    }
    if count == 0 {
        return Err(Error::BadName);
    }
    assert(done + Seq::empty() =~= done);
    let mut out: Vec<u8> = Vec::new();
    put_u64(&mut out, count as u64);
    put_slice(&mut out, &sum.sum);
    reveal(rdn_bytes);
    assert(out@ =~= rdn_bytes(done));
    Ok(out)
}

/// One more attribute adds its digest.
proof fn lemma_digest_sum_push(l: Seq<AttributeView>, a: AttributeView)
    ensures
        digest_sum(comparables(l.push(a))) == digest_sum(comparables(l)) + comparable_digest(
            comparable(a),
        ),
{
    let c = comparables(l.push(a));
    assert(c.drop_last() =~= comparables(l));
    assert(c.last() == comparable(a));
}

/// A name's digest. Names that are the same have the same one; it tells which
/// names may be the same, and comparing them tells whether they are.
#[derive(Debug, Clone, Copy, PartialEq, Eq)]
pub struct NameKey([u8; 32]);

impl View for NameKey {
    type V = Seq<u8>;

    closed spec fn view(&self) -> Seq<u8> {
        self.0@
    }
}

impl NameKey {
    /// The digest of a name.
    pub fn new(der: &[u8]) -> (r: Result<Self, Error>)
        ensures
            match name_key(der@) {
                Ok(k) => r is Ok && r->Ok_0@ == k,
                Err(e) => r is Err && r->Err_0 == e,
            },
    {
        let mut name = Reader::new(der);
        let mut input: Vec<u8> = Vec::new();
        let mut count: usize = 0;
        let ghost all = rdns(der@, true);
        let ghost mut done = Seq::<Seq<AttributeView>>::empty();
        proof {
            if let Ok(l) = all {
                assert(l =~= done + l);
            }
        }
        while !name.is_empty()
            invariant
                all == rdns(der@, true),
                all == ahead(done, rdns(name@, true)),
                count == done.len(),
                count + name@.len() <= der.len(),
                input@ == rdns_bytes(done),
            decreases name@.len(),
        {
            let ghost before = done;
            let ghost unread = name@;
            proof {
                lemma_tlv_consumes(name@);
            }
            let rdn = lift(name.read_tagged(Tag(Tag::SET)))?;
            let bytes = hash_rdn(rdn)?;
            put_slice(&mut input, bytes.as_slice());
            count = count + 1;
            proof {
                let l = attributes(rdn@, 0, true)->Ok_0;
                done = done.push(l);
                assert(done.drop_last() =~= before);
                if let Ok(rest) = rdns(name@, true) {
                    assert(before + (seq![l] + rest) =~= done + rest);
                }
            }
        }
        assert(done + Seq::empty() =~= done);
        put_u64(&mut input, count as u64);
        if input.len() as u64 > 0x1000_0000_0000_0000 {
            return Err(Error::TooManyEntries);
        }
        Ok(Self(sha256(input.as_slice())))
    }

    /// Whether two digests are the same.
    pub fn equals(&self, other: &Self) -> (r: bool)
        ensures
            r == (self@ == other@),
    {
        bytes_eq(&self.0, &other.0)
    }
}

fn chars_eq(a: &Vec<char>, b: &Vec<char>) -> (r: bool)
    ensures
        r == (a@ == b@),
{
    if a.len() != b.len() {
        return false;
    }
    let mut i: usize = 0;
    while i < a.len()
        invariant
            i <= a.len(),
            a@.len() == b@.len(),
            forall|j: int| 0 <= j < i ==> a@[j] == b@[j],
        decreases a.len() - i,
    {
        if a[i] != b[i] {
            return false;
        }
        i = i + 1;
    }
    assert(a@ =~= b@);
    true
}

fn attributes_equal(left: Attribute<'_>, right: Attribute<'_>) -> (r: bool)
    requires
        characters(left@.tag, left@.contents) is Ok,
        characters(right@.tag, right@.contents) is Ok,
    ensures
        r == (comparable(left@) == comparable(right@)),
{
    if !left.oid.is(right.oid.as_bytes()) {
        return false;
    }
    if is_domain_component(left) && is_domain_component(right) {
        let l = to_lower(left.value.contents);
        let r = to_lower(right.value.contents);
        return bytes_eq(l.as_slice(), r.as_slice());
    }
    proof {
        if is_domain_label(left@) || is_domain_label(right@) {
            assert(!is_case_ignore_oid(left@.oid));
        }
    }
    match (case_ignore_string(left), case_ignore_string(right)) {
        (Ok(Some(l)), Ok(Some(r))) => chars_eq(&Profile::prepare(&l), &Profile::prepare(&r)),
        (Ok(None), Ok(None)) => {
            let same = left.value.tag.0 == right.value.tag.0 && bytes_eq(
                left.value.contents,
                right.value.contents,
            );
            same
        },
        _ => false,
    }
}

/// Every attribute of an acceptable relative distinguished name is acceptable.
proof fn lemma_attributes_checked(s: Seq<u8>, n: nat)
    ensures
        match attributes(s, n, false) {
            Ok(l) => forall|i: int|
                0 <= i < l.len() ==> characters((#[trigger] l[i]).tag, l[i].contents) is Ok,
            Err(_) => true,
        },
    decreases s.len(),
{
    reveal(attributes);
    if s.len() > 0 {
        if let Ok(a) = attribute_at(s) {
            lemma_attribute_consumes(s);
            lemma_attributes_checked(after_tlv(s), n + 1);
            if let Ok(l) = attributes(s, n, false) {
                let rest = attributes(after_tlv(s), n + 1, false)->Ok_0;
                assert(l == seq![a] + rest);
                assert forall|i: int| 0 <= i < l.len() implies characters(
                    (#[trigger] l[i]).tag,
                    l[i].contents,
                ) is Ok by {
                    if i == 0 {
                        reveal(check_value);
                        assert(l[0] == a);
                    } else {
                        assert(l[i] == rest[i - 1]);
                    }
                }
            }
        }
    }
}

/// Whether two relative distinguished names are the same: each attribute of one
/// is matched with an attribute of the other that was not matched before.
pub fn rdns_equal(left: &[u8], right: &[u8]) -> (r: bool)
    ensures
        r == rdns_match(left@, right@),
{
    let l = match parse_rdn(left) {
        Ok(l) => l,
        Err(_) => return false,
    };
    let mut unmatched = match parse_rdn(right) {
        Ok(l) => l,
        Err(_) => return false,
    };
    let ghost a = attribute_views(l@);
    let ghost b = attribute_views(unmatched@);
    proof {
        lemma_attributes_checked(left@, 0);
        lemma_attributes_checked(right@, 0);
        broadcast use vstd::seq_lib::group_to_multiset_ensures;

        assert(comparables(a).to_multiset().len() == a.len());
        assert(comparables(b).to_multiset().len() == b.len());
    }
    if l.len() != unmatched.len() {
        return false;
    }
    let mut i: usize = 0;
    proof {
        assert(comparables(a.take(0)) =~= Seq::empty());
        assert(comparables(a.take(0)).to_multiset() =~= vstd::multiset::Multiset::empty());
        assert(comparables(b).to_multiset() =~= comparables(a.take(0)).to_multiset().add(
            comparables(b).to_multiset(),
        ));
        assert forall|k: int| 0 <= k < unmatched@.len() implies characters(
            (#[trigger] unmatched@[k])@.tag,
            unmatched@[k]@.contents,
        ) is Ok by {
            assert(unmatched@[k]@ == b[k]);
        }
    }
    while i < l.len()
        invariant
            i <= l.len(),
            a == attribute_views(l@),
            rdns_match(left@, right@) == same_attributes(a, b),
            unmatched.len() == l.len() - i,
            forall|k: int|
                0 <= k < a.len() ==> characters((#[trigger] a[k]).tag, a[k].contents) is Ok,
            forall|k: int|
                0 <= k < unmatched@.len() ==> characters(
                    (#[trigger] unmatched@[k])@.tag,
                    unmatched@[k]@.contents,
                ) is Ok,
            comparables(b).to_multiset() == comparables(a.take(i as int)).to_multiset().add(
                comparables(attribute_views(unmatched@)).to_multiset(),
            ),
        decreases l.len() - i,
    {
        let attribute = l[i];
        assert(a[i as int] == attribute@);
        let mut j: usize = 0;
        while j < unmatched.len()
            invariant
                j <= unmatched.len(),
                characters(attribute@.tag, attribute@.contents) is Ok,
                forall|k: int|
                    0 <= k < unmatched@.len() ==> characters(
                        (#[trigger] unmatched@[k])@.tag,
                        unmatched@[k]@.contents,
                    ) is Ok,
                forall|k: int|
                    0 <= k < j ==> comparable((#[trigger] unmatched@[k])@) != comparable(attribute@),
            ensures
                j <= unmatched.len(),
                j < unmatched.len() ==> comparable(unmatched@[j as int]@) == comparable(attribute@),
                j == unmatched.len() ==> forall|k: int|
                    0 <= k < j ==> comparable((#[trigger] unmatched@[k])@) != comparable(attribute@),
            decreases unmatched.len() - j,
        {
            if attributes_equal(attribute, unmatched[j]) {
                break;
            }
            j = j + 1;
        }
        let ghost open = unmatched@;
        let ghost u = comparables(attribute_views(open));
        let ghost x = comparable(attribute@);
        let ghost done = comparables(a.take(i as int));
        proof {
            broadcast use vstd::seq_lib::group_to_multiset_ensures;

            assert(comparables(a.take(i + 1)) =~= done.push(x));
            assert(done.push(x).to_multiset() == done.to_multiset().insert(x));
        }
        if j == unmatched.len() {
            proof {
                if same_attributes(a, b) {
                    broadcast use vstd::seq_lib::group_to_multiset_ensures;

                    let head = comparables(a.take(i + 1));
                    let tail = comparables(a.skip(i + 1));
                    assert(comparables(a) =~= head + tail);
                    vstd::seq_lib::lemma_multiset_commutative(head, tail);
                    assert(comparables(a).to_multiset() == head.to_multiset().add(tail.to_multiset()));
                    assert(comparables(a).to_multiset().count(x) == head.to_multiset().count(x)
                        + tail.to_multiset().count(x));
                    assert(head.to_multiset().count(x) == done.to_multiset().count(x) + 1);
                    assert(comparables(b).to_multiset().count(x) == done.to_multiset().count(x)
                        + u.to_multiset().count(x));
                    assert(u.contains(x));
                    let k = choose|k: int| 0 <= k < u.len() && u[k] == x;
                    assert(comparable(open[k]@) == x);
                    assert(false);
                }
            }
            return false;
        }
        unmatched.remove(j);
        proof {
            broadcast use vstd::seq_lib::group_to_multiset_ensures;

            let v = comparables(attribute_views(unmatched@));
            assert(v =~= u.remove(j as int));
            assert(u[j as int] == x);
            assert(u.contains(x));
            assert(u.to_multiset().count(x) > 0);
            assert(v.to_multiset() == u.to_multiset().remove(x));
            assert(done.to_multiset().insert(x).add(u.to_multiset().remove(x))
                =~= done.to_multiset().add(u.to_multiset()));
            assert forall|k: int| 0 <= k < unmatched@.len() implies characters(
                (#[trigger] unmatched@[k])@.tag,
                unmatched@[k]@.contents,
            ) is Ok by {
                assert(unmatched@[k] == open[if k < j { k } else { k + 1 }]);
            }
        }
        i = i + 1;
    }
    proof {
        broadcast use vstd::seq_lib::group_to_multiset_ensures;

        let u = comparables(attribute_views(unmatched@));
        assert(u =~= Seq::empty());
        assert(u.to_multiset() =~= vstd::multiset::Multiset::empty());
        assert(a.take(i as int) =~= a);
        assert(comparables(b).to_multiset() =~= comparables(a).to_multiset());
    }
    true
}

fn names_equal(left: &[u8], right: &[u8]) -> (r: bool)
    ensures
        r == names_match(left@, right@),
{
    let mut l = Reader::new(left);
    let mut r = Reader::new(right);
    while !l.is_empty() && !r.is_empty()
        invariant
            names_match(left@, right@) == names_match(l@, r@),
        decreases l@.len(),
    {
        proof {
            lemma_tlv_consumes(l@);
        }
        let (left_rdn, right_rdn) = match (l.read_tlv(), r.read_tlv()) {
            (Ok(a), Ok(b)) => (a, b),
            _ => return false,
        };
        if left_rdn.tag.0 != Tag::SET || right_rdn.tag.0 != Tag::SET || !rdns_equal(
            left_rdn.contents,
            right_rdn.contents,
        ) {
            return false;
        }
    }
    l.is_empty() && r.is_empty()
}

/// An encoded name.
#[derive(Debug, Clone, Copy)]
pub struct DistinguishedName<'a> {
    der: &'a [u8],
}

impl<'a> View for DistinguishedName<'a> {
    type V = Seq<u8>;

    closed spec fn view(&self) -> Seq<u8> {
        self.der@
    }
}

impl<'a> DistinguishedName<'a> {
    /// Accepts the contents of an encoded name in which every relative
    /// distinguished name has attributes and every string can be compared.
    pub fn parse(der: &'a [u8]) -> (r: Result<Self, Error>)
        ensures
            match rdns(der@, false) {
                Ok(_) => r is Ok && r->Ok_0@ == der@,
                Err(e) => r is Err && r->Err_0 == e,
            },
    {
        validate_name(der)?;
        Ok(Self { der })
    }

    /// The name and its digest.
    pub fn prepared(der: &'a [u8]) -> (r: Result<(Self, NameKey), Error>)
        ensures
            match name_key(der@) {
                Ok(k) => r is Ok && r->Ok_0.0@ == der@ && r->Ok_0.1@ == k,
                Err(e) => r is Err && r->Err_0 == e,
            },
    {
        let key = NameKey::new(der)?;
        Ok((Self { der }, key))
    }

    /// The contents of the encoded name.
    pub fn as_der(&self) -> (r: &'a [u8])
        ensures
            r@ == self@,
    {
        self.der
    }

    /// The name in bytes that were found acceptable before.
    pub fn from_validated(der: &'a [u8]) -> (r: Self)
        ensures
            r@ == der@,
    {
        Self { der }
    }

    /// Whether two names are the same.
    pub fn equivalent(self, other: Self) -> (r: bool)
        ensures
            r == same_name(self@, other@),
    {
        bytes_eq(self.der, other.der) || names_equal(self.der, other.der)
    }
}

/// Two relative distinguished names are the same exactly if both hold one attribute at
/// least, no more than there may be and each acceptable, and both hold the same
/// attributes, each as often: their order does not count. So it does not matter which
/// one is compared with which.
pub proof fn law_rdns_are_multisets(a: Seq<u8>, b: Seq<u8>)
    ensures
        rdns_match(a, b) == match (attributes(a, 0, false), attributes(b, 0, false)) {
            (Ok(x), Ok(y)) => {
                &&& 1 <= x.len() <= MAX_ATTRIBUTES_PER_RDN
                &&& x.len() == y.len()
                &&& forall|c: Comparable| #[trigger]
                    comparables(x).to_multiset().count(c) == comparables(y).to_multiset().count(c)
            },
            _ => false,
        },
        rdns_match(a, b) == rdns_match(b, a),
{
    broadcast use vstd::seq_lib::group_to_multiset_ensures;

    lemma_attributes_bounded(a, 0);
    lemma_attributes_bounded(b, 0);
    if let (Ok(x), Ok(y)) = (attributes(a, 0, false), attributes(b, 0, false)) {
        let m = comparables(x).to_multiset();
        let n = comparables(y).to_multiset();
        assert(m.len() == x.len());
        assert(n.len() == y.len());
        if forall|c: Comparable| #[trigger] m.count(c) == n.count(c) {
            assert(m =~= n);
        }
    }
}

proof fn lemma_attributes_bounded(s: Seq<u8>, n: nat)
    requires
        n <= MAX_ATTRIBUTES_PER_RDN,
    ensures
        attributes(s, n, false) matches Ok(l) ==> 1 <= n + l.len() <= MAX_ATTRIBUTES_PER_RDN,
    decreases s.len(),
{
    reveal(attributes);
    if s.len() > 0 && attribute_at(s) is Ok && n + 1 <= MAX_ATTRIBUTES_PER_RDN {
        lemma_attribute_consumes(s);
        lemma_attributes_bounded(after_tlv(s), n + 1);
    }
}

/// Being the same name is an equivalence.
pub proof fn law_same_name_equivalence(a: Seq<u8>, b: Seq<u8>, c: Seq<u8>)
    ensures
        same_name(a, a),
        same_name(a, b) ==> same_name(b, a),
        same_name(a, b) && same_name(b, c) ==> same_name(a, c),
{
    lemma_names_match_symmetric(a, b);
    lemma_names_match_transitive(a, b, c);
}

proof fn lemma_names_match_symmetric(a: Seq<u8>, b: Seq<u8>)
    ensures
        names_match(a, b) ==> names_match(b, a),
    decreases a.len(),
{
    if names_match(a, b) && a.len() > 0 && b.len() > 0 {
        lemma_tlv_consumes(a);
        lemma_tlv_consumes(b);
        lemma_names_match_symmetric(after_tlv(a), after_tlv(b));
    }
}

proof fn lemma_names_match_transitive(a: Seq<u8>, b: Seq<u8>, c: Seq<u8>)
    ensures
        names_match(a, b) && names_match(b, c) ==> names_match(a, c),
    decreases a.len(),
{
    if names_match(a, b) && names_match(b, c) && a.len() > 0 && b.len() > 0 && c.len() > 0 {
        lemma_tlv_consumes(a);
        lemma_tlv_consumes(b);
        lemma_tlv_consumes(c);
        lemma_names_match_transitive(after_tlv(a), after_tlv(b), after_tlv(c));
    }
}

/// The same names have the same digest.
pub proof fn law_same_name_same_key(a: Seq<u8>, b: Seq<u8>)
    requires
        same_name(a, b),
    ensures
        name_key(a) is Ok && name_key(b) is Ok ==> name_key(a) == name_key(b),
{
    if a != b && name_key(a) is Ok && name_key(b) is Ok {
        lemma_match_same_bytes(a, b);
    }
}

/// Names that match have as many relative distinguished names, for which the same
/// bytes are digested.
proof fn lemma_match_same_bytes(a: Seq<u8>, b: Seq<u8>)
    requires
        names_match(a, b),
        rdns(a, true) is Ok,
        rdns(b, true) is Ok,
    ensures
        rdns(a, true)->Ok_0.len() == rdns(b, true)->Ok_0.len(),
        rdns_bytes(rdns(a, true)->Ok_0) == rdns_bytes(rdns(b, true)->Ok_0),
    decreases a.len(),
{
    if a.len() > 0 && b.len() > 0 {
        lemma_tlv_consumes(a);
        lemma_tlv_consumes(b);
        let ca = der_tagged(a, Tag::SET)->Ok_0;
        let cb = der_tagged(b, Tag::SET)->Ok_0;
        let x = attributes(ca, 0, true)->Ok_0;
        let y = attributes(cb, 0, true)->Ok_0;
        let ra = rdns(after_tlv(a), true)->Ok_0;
        let rb = rdns(after_tlv(b), true)->Ok_0;
        lemma_match_same_bytes(after_tlv(a), after_tlv(b));
        assert(rdns_match(ca, cb));
        lemma_modes_agree(ca, 0);
        lemma_modes_agree(cb, 0);
        lemma_sum_ignores_order(x, y);
        lemma_rdns_bytes_front(x, ra);
        lemma_rdns_bytes_front(y, rb);
    }
}

/// The attributes are the same whichever way they are checked.
proof fn lemma_modes_agree(s: Seq<u8>, n: nat)
    requires
        attributes(s, n, true) is Ok,
        attributes(s, n, false) is Ok,
    ensures
        attributes(s, n, true) == attributes(s, n, false),
    decreases s.len(),
{
    reveal(attributes);
    if s.len() > 0 {
        lemma_attribute_consumes(s);
        lemma_modes_agree(after_tlv(s), n + 1);
    }
}

/// The same attributes in any order are digested alike.
proof fn lemma_sum_ignores_order(x: Seq<AttributeView>, y: Seq<AttributeView>)
    requires
        same_attributes(x, y),
    ensures
        rdn_bytes(x) == rdn_bytes(y),
{
    reveal(rdn_bytes);
    broadcast use vstd::seq_lib::group_to_multiset_ensures;

    let cx = comparables(x);
    let cy = comparables(y);
    assert(cx.to_multiset().len() == cx.len());
    assert(cy.to_multiset().len() == cy.len());
    let f = |sum: nat, c: Comparable| sum + comparable_digest(c);
    vstd::seq_lib::lemma_fold_left_permutation(cx, cy, f, 0nat);
}

/// The first relative distinguished name's bytes come first.
proof fn lemma_rdns_bytes_front(x: Seq<AttributeView>, l: Seq<Seq<AttributeView>>)
    ensures
        rdns_bytes(seq![x] + l) == rdn_bytes(x) + rdns_bytes(l),
    decreases l.len(),
{
    let s = seq![x] + l;
    if l.len() == 0 {
        assert(s.drop_last() =~= Seq::empty());
        assert(rdns_bytes(s.drop_last()) =~= Seq::empty());
        assert(rdns_bytes(l) =~= Seq::empty());
        assert(s.last() == x);
        assert(rdns_bytes(s) =~= rdn_bytes(x) + rdns_bytes(l));
    } else {
        lemma_rdns_bytes_front(x, l.drop_last());
        assert(s.drop_last() =~= seq![x] + l.drop_last());
        assert(s.last() == l.last());
        assert(rdns_bytes(s) =~= rdn_bytes(x) + rdns_bytes(l));
    }
}

} // verus!
