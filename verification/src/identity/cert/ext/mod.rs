//! Certificate extensions.

use arrayvec::ArrayVec;
use vstd::prelude::*;

use crate::identity::asn1::{
    after_tlv, der_bit_string, der_bool, der_oid, der_tagged, der_uint, der_whole, lemma_tlv_consumes,
    lemma_tlv_extends, low_bits, pow2_below_8, read_whole, starts_with_tag, uint_value, DerError, Oid, Reader, Tag,
};
use crate::identity::cert::{lift, Error};

pub mod scope;

verus! {

pub const OID_KEY_USAGE: [u8; 3] = [0x55, 0x1d, 0x0f];

pub const OID_SUBJECT_ALT_NAME: [u8; 3] = [0x55, 0x1d, 0x11];

pub const OID_BASIC_CONSTRAINTS: [u8; 3] = [0x55, 0x1d, 0x13];

pub const OID_NAME_CONSTRAINTS: [u8; 3] = [0x55, 0x1d, 0x1e];

pub const OID_EXTENDED_KEY_USAGE: [u8; 3] = [0x55, 0x1d, 0x25];

pub const OID_EKU_SERVER_AUTH: [u8; 8] = [0x2b, 0x06, 0x01, 0x05, 0x05, 0x07, 0x03, 0x01];

pub const OID_EKU_CLIENT_AUTH: [u8; 8] = [0x2b, 0x06, 0x01, 0x05, 0x05, 0x07, 0x03, 0x02];

pub const OID_EKU_ANY: [u8; 4] = [0x55, 0x1d, 0x25, 0x00];

/// How many values any one list in the extensions may have.
pub const MAX_EXTENSION_VALUES: usize = 64;

/// An extension: its type, whether it must be understood, and its value.
pub struct ExtensionView {
    pub oid: Seq<u8>,
    pub critical: bool,
    pub value: Seq<u8>,
}

/// The flag at the front of `s`, which is false where it is absent, and is encoded
/// only where it is true.
pub open spec fn default_false(s: Seq<u8>) -> Result<bool, DerError> {
    if starts_with_tag(s, Tag::BOOLEAN) {
        match der_bool(s) {
            Ok(true) => Ok(true),
            Ok(false) => Err(DerError::BadBool),
            Err(e) => Err(e),
        }
    } else {
        Ok(false)
    }
}

/// What follows the flag.
pub open spec fn after_flag(s: Seq<u8>) -> Seq<u8> {
    if starts_with_tag(s, Tag::BOOLEAN) {
        after_tlv(s)
    } else {
        s
    }
}

/// The extension at the front of `s`.
#[verifier::opaque]
pub open spec fn extension_at(s: Seq<u8>) -> Result<ExtensionView, DerError> {
    match der_tagged(s, Tag::SEQUENCE) {
        Err(e) => Err(e),
        Ok(c) => match der_oid(c) {
            Err(e) => Err(e),
            Ok(oid) => match default_false(after_tlv(c)) {
                Err(e) => Err(e),
                Ok(critical) => {
                    let rest = after_flag(after_tlv(c));
                    match der_tagged(rest, Tag::OCTET_STRING) {
                        Err(e) => Err(e),
                        Ok(value) => if after_tlv(rest).len() > 0 {
                            Err(DerError::Trailing)
                        } else {
                            Ok(ExtensionView { oid, critical, value })
                        },
                    }
                },
            },
        },
    }
}

/// Reading an extension leaves less to read.
pub proof fn lemma_extension_consumes(s: Seq<u8>)
    ensures
        extension_at(s) is Ok ==> after_tlv(s).len() < s.len(),
{
    reveal(extension_at);
    lemma_tlv_consumes(s);
}

/// Where an iteration stands: the types it has given out, and what is unread.
#[verifier::ext_equal]
pub struct ExtensionsView {
    pub seen: Seq<Seq<u8>>,
    pub rest: Seq<u8>,
}

/// The next extension: no more than there may be, and no type twice.
pub open spec fn next_extension(v: ExtensionsView) -> Option<Result<ExtensionView, Error>> {
    if v.rest.len() == 0 {
        None
    } else {
        Some(
            match extension_at(v.rest) {
                Err(e) => Err(Error::Der(e)),
                Ok(x) => if v.seen.len() >= MAX_EXTENSION_VALUES {
                    Err(Error::TooManyEntries)
                } else if v.seen.contains(x.oid) {
                    Err(Error::DuplicateExtension)
                } else {
                    Ok(x)
                },
            },
        )
    }
}

/// Where the iteration stands after that: at its end after an error.
pub open spec fn after_extension(v: ExtensionsView) -> ExtensionsView {
    match next_extension(v) {
        None => v,
        Some(Err(_)) => ExtensionsView { seen: v.seen, rest: Seq::empty() },
        Some(Ok(x)) => ExtensionsView { seen: v.seen.push(x.oid), rest: after_tlv(v.rest) },
    }
}

/// All the extensions that are left, or the first error.
pub open spec fn all_extensions(v: ExtensionsView) -> Result<Seq<ExtensionView>, Error>
    decreases v.rest.len(),
{
    match next_extension(v) {
        None => Ok(Seq::empty()),
        Some(Err(e)) => Err(e),
        Some(Ok(x)) => {
            proof {
                lemma_extension_consumes(v.rest);
            }
            match all_extensions(after_extension(v)) {
                Ok(l) => Ok(seq![x] + l),
                Err(e) => Err(e),
            }
        },
    }
}

/// The first extension that is left with type `oid`, or the error before it.
pub open spec fn find_extension(v: ExtensionsView, oid: Seq<u8>) -> Result<Option<ExtensionView>, Error>
    decreases v.rest.len(),
{
    match next_extension(v) {
        None => Ok(None),
        Some(Err(e)) => Err(e),
        Some(Ok(x)) => if x.oid == oid {
            Ok(Some(x))
        } else {
            proof {
                lemma_extension_consumes(v.rest);
            }
            find_extension(after_extension(v), oid)
        },
    }
}

/// An iteration at its start.
pub open spec fn extensions_of(der: Seq<u8>) -> ExtensionsView {
    ExtensionsView { seen: Seq::empty(), rest: der }
}

/// Extensions that are accepted are at most as many as there may be and have types
/// that differ.
pub proof fn law_extensions_distinct(der: Seq<u8>)
    ensures
        match all_extensions(extensions_of(der)) {
            Ok(l) => {
                &&& l.len() <= MAX_EXTENSION_VALUES
                &&& forall|i: int, j: int|
                    0 <= i < j < l.len() ==> (#[trigger] l[i]).oid != (#[trigger] l[j]).oid
            },
            Err(_) => true,
        },
{
    lemma_distinct_from(extensions_of(der));
}

proof fn lemma_distinct_from(v: ExtensionsView)
    requires
        v.seen.len() <= MAX_EXTENSION_VALUES,
    ensures
        match all_extensions(v) {
            Ok(l) => {
                &&& v.seen.len() + l.len() <= MAX_EXTENSION_VALUES
                &&& forall|i: int| 0 <= i < l.len() ==> !v.seen.contains((#[trigger] l[i]).oid)
                &&& forall|i: int, j: int|
                    0 <= i < j < l.len() ==> (#[trigger] l[i]).oid != (#[trigger] l[j]).oid
            },
            Err(_) => true,
        },
    decreases v.rest.len(),
{
    if let Some(Ok(x)) = next_extension(v) {
        lemma_extension_consumes(v.rest);
        let w = after_extension(v);
        lemma_distinct_from(w);
        if let Ok(l) = all_extensions(v) {
            let rest = all_extensions(w)->Ok_0;
            assert(w.seen.last() == x.oid);
            assert(w.seen.contains(x.oid));
            assert forall|i: int| 0 <= i < l.len() implies !v.seen.contains((#[trigger] l[i]).oid) by {
                if i > 0 {
                    assert(l[i] == rest[i - 1]);
                    if v.seen.contains(l[i].oid) {
                        let k = choose|k: int| 0 <= k < v.seen.len() && v.seen[k] == l[i].oid;
                        assert(w.seen[k] == l[i].oid);
                    }
                }
            }
            assert forall|i: int, j: int| 0 <= i < j < l.len() implies (#[trigger] l[i]).oid != (
            #[trigger] l[j]).oid by {
                assert(l[j] == rest[j - 1]);
                if i > 0 {
                    assert(l[i] == rest[i - 1]);
                }
            }
        }
    }
}

/// Byte strings, one behind another.
pub open spec fn joined(l: Seq<Seq<u8>>) -> Seq<u8>
    decreases l.len(),
{
    if l.len() == 0 {
        Seq::empty()
    } else {
        l[0] + joined(l.skip(1))
    }
}

/// Whether bytes are one extension and nothing else.
pub open spec fn is_extension(s: Seq<u8>) -> bool {
    s.len() > 0 && extension_at(s) is Ok && after_tlv(s).len() == 0
}

/// A list of extensions with types that differ, no more than there may be, is given out
/// whole and in order, and then ends.
pub proof fn law_extensions_given_out(l: Seq<Seq<u8>>)
    requires
        l.len() <= MAX_EXTENSION_VALUES,
        forall|i: int| 0 <= i < l.len() ==> is_extension(#[trigger] l[i]),
        forall|i: int, j: int|
            0 <= i < j < l.len() ==> extension_at(#[trigger] l[i])->Ok_0.oid != extension_at(
                #[trigger] l[j],
            )->Ok_0.oid,
    ensures
        all_extensions(extensions_of(joined(l))) == Ok::<Seq<ExtensionView>, Error>(
            Seq::new(l.len(), |i: int| extension_at(l[i])->Ok_0),
        ),
        l.len() == 0 ==> next_extension(extensions_of(joined(l))) is None,
{
    lemma_given_out(Seq::empty(), l);
}

proof fn lemma_given_out(seen: Seq<Seq<u8>>, l: Seq<Seq<u8>>)
    requires
        seen.len() + l.len() <= MAX_EXTENSION_VALUES,
        forall|i: int| 0 <= i < l.len() ==> is_extension(#[trigger] l[i]),
        forall|i: int|
            0 <= i < l.len() ==> !seen.contains(extension_at(#[trigger] l[i])->Ok_0.oid),
        forall|i: int, j: int|
            0 <= i < j < l.len() ==> extension_at(#[trigger] l[i])->Ok_0.oid != extension_at(
                #[trigger] l[j],
            )->Ok_0.oid,
    ensures
        all_extensions(ExtensionsView { seen, rest: joined(l) }) == Ok::<Seq<ExtensionView>, Error>(
            Seq::new(l.len(), |i: int| extension_at(l[i])->Ok_0),
        ),
    decreases l.len(),
{
    let v = ExtensionsView { seen, rest: joined(l) };
    if l.len() > 0 {
        let t = l.skip(1);
        let x = extension_at(l[0])->Ok_0;
        assert(is_extension(l[0]));
        lemma_extension_extends(l[0], joined(t));
        assert(extension_at(v.rest) == Ok::<ExtensionView, DerError>(x));
        assert(!seen.contains(x.oid));
        assert(next_extension(v) == Some(Ok::<ExtensionView, Error>(x)));
        let next = seen.push(x.oid);
        assert(after_extension(v) =~= (ExtensionsView { seen: next, rest: joined(t) }));
        assert forall|i: int| 0 <= i < t.len() implies is_extension(#[trigger] t[i]) && !next.contains(
            extension_at(t[i])->Ok_0.oid,
        ) by {
            assert(t[i] == l[i + 1]);
            let oid = extension_at(l[i + 1])->Ok_0.oid;
            assert(oid != extension_at(l[0])->Ok_0.oid);
            if next.contains(oid) {
                let k = choose|k: int| 0 <= k < next.len() && next[k] == oid;
                assert(seen[k] == oid);
            }
        }
        assert forall|i: int, j: int| 0 <= i < j < t.len() implies extension_at(
            #[trigger] t[i],
        )->Ok_0.oid != extension_at(#[trigger] t[j])->Ok_0.oid by {
            assert(t[i] == l[i + 1] && t[j] == l[j + 1]);
        }
        lemma_given_out(next, t);
        lemma_extension_consumes(v.rest);
        assert(seq![x] + Seq::new(t.len(), |i: int| extension_at(t[i])->Ok_0) =~= Seq::new(
            l.len(),
            |i: int| extension_at(l[i])->Ok_0,
        ));
    } else {
        assert(Seq::new(l.len(), |i: int| extension_at(l[i])->Ok_0) =~= Seq::empty());
    }
}

proof fn lemma_extension_extends(s: Seq<u8>, more: Seq<u8>)
    requires
        is_extension(s),
    ensures
        (s + more).len() > 0,
        extension_at(s + more) == extension_at(s),
        after_tlv(s + more) == more,
{
    reveal(extension_at);
    lemma_tlv_extends(s, more);
    assert(after_tlv(s) + more =~= more);
}

/// What is found is the extension of that type among all of them.
pub proof fn law_find_agrees(der: Seq<u8>, oid: Seq<u8>)
    ensures
        match all_extensions(extensions_of(der)) {
            Ok(l) => match find_extension(extensions_of(der), oid) {
                Ok(Some(x)) => x.oid == oid && l.contains(x),
                Ok(None) => forall|i: int| 0 <= i < l.len() ==> (#[trigger] l[i]).oid != oid,
                Err(_) => false,
            },
            Err(_) => true,
        },
{
    lemma_find_from(extensions_of(der), oid);
}

proof fn lemma_find_from(v: ExtensionsView, oid: Seq<u8>)
    ensures
        match all_extensions(v) {
            Ok(l) => match find_extension(v, oid) {
                Ok(Some(x)) => x.oid == oid && l.contains(x),
                Ok(None) => forall|i: int| 0 <= i < l.len() ==> (#[trigger] l[i]).oid != oid,
                Err(_) => false,
            },
            Err(_) => true,
        },
    decreases v.rest.len(),
{
    if let Some(Ok(x)) = next_extension(v) {
        lemma_extension_consumes(v.rest);
        let w = after_extension(v);
        lemma_find_from(w, oid);
        if let Ok(l) = all_extensions(v) {
            let rest = all_extensions(w)->Ok_0;
            assert(l[0] == x);
            if x.oid == oid {
                assert(l.contains(x));
            } else {
                match find_extension(w, oid) {
                    Ok(Some(y)) => {
                        let k = choose|k: int| 0 <= k < rest.len() && rest[k] == y;
                        assert(l[k + 1] == y);
                    },
                    _ => {
                        assert forall|i: int| 0 <= i < l.len() implies (#[trigger] l[i]).oid != oid by {
                            if i > 0 {
                                assert(l[i] == rest[i - 1]);
                            }
                        }
                    },
                }
            }
        }
    }
}

/// An extension.
#[derive(Debug, Clone, Copy)]
pub struct ExtensionEntry<'a> {
    pub oid: Oid<'a>,
    pub critical: bool,
    pub value: &'a [u8],
}

impl<'a> View for ExtensionEntry<'a> {
    type V = ExtensionView;

    open spec fn view(&self) -> ExtensionView {
        ExtensionView { oid: self.oid@, critical: self.critical, value: self.value@ }
    }
}

/// Whether an extension type is one that path validation understands.
pub open spec fn is_handled_oid(oid: Seq<u8>) -> bool {
    oid == OID_KEY_USAGE@ || oid == OID_SUBJECT_ALT_NAME@ || oid == OID_BASIC_CONSTRAINTS@ || oid
        == OID_NAME_CONSTRAINTS@ || oid == OID_EXTENDED_KEY_USAGE@
}

impl<'a> ExtensionEntry<'a> {
    /// Whether an extension type is one that path validation understands.
    pub fn is_handled(oid: Oid<'_>) -> (r: bool)
        ensures
            r == is_handled_oid(oid@),
    {
        oid.is(&OID_KEY_USAGE) || oid.is(&OID_SUBJECT_ALT_NAME) || oid.is(&OID_BASIC_CONSTRAINTS) || oid.is(
            &OID_NAME_CONSTRAINTS,
        ) || oid.is(&OID_EXTENDED_KEY_USAGE)
    }
}

/// A set of object identifiers that may hold more than was put in: 64 bits, of
/// which each identifier sets one.
struct OidFilter {
    bits: u64,
}

/// The low six bits of a byte string's FNV-1a hash.
spec fn filter_index(oid: Seq<u8>) -> u64 {
    fnv(oid) & 63
}

spec fn fnv(oid: Seq<u8>) -> u64
    decreases oid.len(),
{
    if oid.len() == 0 {
        0xcbf2_9ce4_8422_2325
    } else {
        ((fnv(oid.drop_last()) ^ (oid.last() as u64)) as u64).wrapping_mul(0x0000_0100_0000_01b3)
    }
}

spec fn filter_bit(oid: Seq<u8>) -> u64 {
    1u64 << filter_index(oid)
}

impl OidFilter {
    /// Whether every one of `seen` has its bit set.
    spec fn covers(self, seen: Seq<Seq<u8>>) -> bool {
        forall|i: int| 0 <= i < seen.len() ==> self.bits & filter_bit(#[trigger] seen[i]) != 0
    }

    fn bit(oid: Oid<'_>) -> (r: u64)
        ensures
            r == filter_bit(oid@),
    {
        let bytes = oid.as_bytes();
        let mut hash: u64 = 0xcbf2_9ce4_8422_2325;
        let mut i: usize = 0;
        assert(bytes@.take(0) =~= Seq::empty());
        while i < bytes.len()
            invariant
                i <= bytes.len(),
                hash == fnv(bytes@.take(i as int)),
            decreases bytes.len() - i,
        {
            assert(bytes@.take(i + 1).drop_last() =~= bytes@.take(i as int));
            hash = hash ^ (bytes[i] as u64);
            hash = hash.wrapping_mul(0x0000_0100_0000_01b3);
            i = i + 1;
        }
        assert(bytes@.take(i as int) =~= bytes@);
        let n: u64 = hash & 63;
        assert(hash & 63 < 64) by (bit_vector);
        1u64 << n
    }

    /// Puts an identifier in, and tells whether it is one of `seen`.
    fn insert(&mut self, oid: Oid<'_>, seen: &Vec<Oid<'_>>) -> (r: bool)
        requires
            old(self).covers(oid_views(seen@)),
        ensures
            r == oid_views(seen@).contains(oid@),
            final(self).covers(oid_views(seen@).push(oid@)),
    {
        let bit: u64 = Self::bit(oid);
        let bits: u64 = self.bits;
        let ghost views = oid_views(seen@);
        let mut found = false;
        if bits & bit != 0 {
            let mut i: usize = 0;
            while i < seen.len()
                invariant
                    i <= seen.len(),
                    views == oid_views(seen@),
                    found == exists|k: int| 0 <= k < i && views[k] == oid@,
                decreases seen.len() - i,
            {
                assert(views[i as int] == seen@[i as int]@);
                if seen[i].is(oid.as_bytes()) {
                    found = true;
                }
                i = i + 1;
            }
        } else {
            proof {
                if views.contains(oid@) {
                    let k = choose|k: int| 0 <= k < views.len() && views[k] == oid@;
                    assert(bits & filter_bit(views[k]) != 0);
                }
            }
        }
        self.bits = bits | bit;
        proof {
            let n = filter_index(oid@);
            let h = fnv(oid@);
            assert(h & 63 < 64) by (bit_vector);
            assert((bits | (1u64 << n)) & (1u64 << n) != 0) by (bit_vector)
                requires
                    n < 64,
            ;
            let all = views.push(oid@);
            assert forall|i: int| 0 <= i < all.len() implies self.bits & filter_bit(#[trigger] all[i])
                != 0 by {
                if i < views.len() {
                    assert(all[i] == views[i]);
                    let b = filter_bit(views[i]);
                    assert((bits | bit) & b != 0) by (bit_vector)
                        requires
                            bits & b != 0,
                    ;
                }
            }
        }
        found
    }
}

spec fn oid_views(l: Seq<Oid<'_>>) -> Seq<Seq<u8>> {
    l.map_values(|o: Oid<'_>| o@)
}

/// An iteration over extensions.
pub struct ExtensionIter<'a> {
    rest: &'a [u8],
    seen: Vec<Oid<'a>>,
    filter: OidFilter,
}

impl<'a> View for ExtensionIter<'a> {
    type V = ExtensionsView;

    closed spec fn view(&self) -> ExtensionsView {
        ExtensionsView { seen: oid_views(self.seen@), rest: self.rest@ }
    }
}

impl<'a> ExtensionIter<'a> {
    #[verifier::type_invariant]
    spec fn valid(self) -> bool {
        self.filter.covers(oid_views(self.seen@))
    }

    /// An iteration over the contents of an extension list.
    pub fn new(extensions_der: &'a [u8]) -> (r: Self)
        ensures
            r@ == extensions_of(extensions_der@),
    {
        let r = Self { rest: extensions_der, seen: Vec::new(), filter: OidFilter { bits: 0 } };
        assert(oid_views(r.seen@) =~= Seq::empty());
        r
    }

    /// The next extension.
    pub fn next(&mut self) -> (r: Option<Result<ExtensionEntry<'a>, Error>>)
        ensures
            match next_extension(old(self)@) {
                None => r is None,
                Some(Ok(x)) => r matches Some(Ok(e)) && e@ == x,
                Some(Err(e)) => r matches Some(Err(d)) && d == e,
            },
            final(self)@ == after_extension(old(self)@),
    {
        if self.rest.len() == 0 {
            return None;
        }
        proof {
            use_type_invariant(&*self);
        }
        let mut reader = Reader::new(self.rest);
        let entry = match parse_extension(&mut reader) {
            Ok(e) => e,
            Err(e) => {
                self.stop();
                return Some(Err(e));
            },
        };
        if self.seen.len() >= MAX_EXTENSION_VALUES {
            self.stop();
            return Some(Err(Error::TooManyEntries));
        }
        let mut filter = OidFilter { bits: self.filter.bits };
        if filter.insert(entry.oid, &self.seen) {
            self.stop();
            return Some(Err(Error::DuplicateExtension));
        }
        let mut seen: Vec<Oid<'a>> = Vec::new();
        let ghost before = oid_views(self.seen@);
        let rest = reader.bytes_remaining();
        let mut i: usize = 0;
        while i < self.seen.len()
            invariant
                i <= self.seen.len(),
                seen@ == self.seen@.take(i as int),
            decreases self.seen.len() - i,
        {
            seen.push(self.seen[i]);
            i = i + 1;
        }
        assert(seen@ =~= self.seen@);
        seen.push(entry.oid);
        assert(oid_views(seen@) =~= before.push(entry.oid@));
        *self = Self { rest, seen, filter };
        Some(Ok(entry))
    }

    fn stop(&mut self)
        ensures
            final(self)@ == (ExtensionsView { seen: old(self)@.seen, rest: Seq::empty() }),
    {
        proof {
            use_type_invariant(&*self);
        }
        self.rest = &[];
        assert(self.rest@ =~= Seq::empty());
    }

    /// The first extension with type `oid`: whether it must be understood, and its
    /// value.
    pub fn find(extensions_der: &'a [u8], oid: &[u8]) -> (r: Result<Option<(bool, &'a [u8])>, Error>)
        ensures
            match find_extension(extensions_of(extensions_der@), oid@) {
                Ok(Some(x)) => r matches Ok(Some(f)) && f.0 == x.critical && f.1@ == x.value,
                Ok(None) => r matches Ok(None),
                Err(e) => r matches Err(d) && d == e,
            },
    {
        let mut it = Self::new(extensions_der);
        loop
            invariant
                find_extension(extensions_of(extensions_der@), oid@) == find_extension(it@, oid@),
            decreases it@.rest.len(),
        {
            proof {
                lemma_extension_consumes(it@.rest);
            }
            match it.next() {
                None => return Ok(None),
                Some(Err(e)) => return Err(e),
                Some(Ok(e)) => {
                    if e.oid.is(oid) {
                        return Ok(Some((e.critical, e.value)));
                    }
                },
            }
        }
    }
}

/// The flag at the front of the unread, which is false where it is absent.
fn read_default_false(reader: &mut Reader<'_>) -> (r: Result<bool, DerError>)
    ensures
        r == default_false(old(reader)@),
        final(reader)@ == after_flag(old(reader)@),
{
    match reader.peek_tag() {
        Some(tag) => {
            if tag.0 == Tag::BOOLEAN {
                if !reader.read_bool()? {
                    return Err(DerError::BadBool);
                }
                Ok(true)
            } else {
                Ok(false)
            }
        },
        None => Ok(false),
    }
}

fn parse_extension<'a>(reader: &mut Reader<'a>) -> (r: Result<ExtensionEntry<'a>, Error>)
    ensures
        match extension_at(old(reader)@) {
            Ok(x) => r is Ok && r->Ok_0@ == x && final(reader)@ == after_tlv(old(reader)@),
            Err(e) => r is Err && r->Err_0 == Error::Der(e),
        },
{
    reveal(extension_at);
    let inner = lift(reader.read_tagged(Tag(Tag::SEQUENCE)))?;
    let mut entry = Reader::new(inner);
    let oid = lift(entry.read_oid())?;
    let critical = lift(read_default_false(&mut entry))?;
    let value = lift(entry.read_tagged(Tag(Tag::OCTET_STRING)))?;
    lift(entry.finish())?;
    Ok(ExtensionEntry { oid, critical, value })
}

/// The basic constraints in `value`: whether the subject is a CA, and how many
/// intermediate certificates may follow it, which only a CA may say.
pub open spec fn basic_constraints(value: Seq<u8>) -> Result<BasicConstraints, DerError> {
    match der_whole(value, Tag::SEQUENCE) {
        Err(e) => Err(e),
        Ok(c) => match default_false(c) {
            Err(e) => Err(e),
            Ok(ca) => {
                let rest = after_flag(c);
                if !starts_with_tag(rest, Tag::INTEGER) {
                    if rest.len() > 0 {
                        Err(DerError::Trailing)
                    } else {
                        Ok(BasicConstraints { ca, path_len_constraint: None })
                    }
                } else if !ca {
                    Err(DerError::Mismatch)
                } else {
                    match der_uint(rest) {
                        Err(e) => Err(e),
                        Ok(n) => match uint_value(n) {
                            Err(e) => Err(e),
                            Ok(v) => if after_tlv(rest).len() > 0 {
                                Err(DerError::Trailing)
                            } else {
                                Ok(BasicConstraints { ca, path_len_constraint: Some(v) })
                            },
                        },
                    }
                }
            },
        },
    }
}

/// Whether the subject is a CA, and how many intermediate certificates may follow.
#[derive(Debug, Clone, Copy, PartialEq, Eq, Structural)]
pub struct BasicConstraints {
    pub ca: bool,
    pub path_len_constraint: Option<u64>,
}

impl BasicConstraints {
    /// Reads an extension value.
    pub fn parse(value: &[u8]) -> (r: Result<Self, Error>)
        ensures
            match basic_constraints(value@) {
                Ok(b) => r == Ok::<Self, Error>(b),
                Err(e) => r == Err::<Self, Error>(Error::Der(e)),
            },
    {
        let inner = lift(read_whole(value, Tag(Tag::SEQUENCE)))?;
        let mut reader = Reader::new(inner);
        let ca = lift(read_default_false(&mut reader))?;
        let has_length = match reader.peek_tag() {
            Some(tag) => tag.0 == Tag::INTEGER,
            None => false,
        };
        let path_len_constraint = if has_length {
            if !ca {
                return Err(Error::Der(DerError::Mismatch));
            }
            let n = lift(reader.read_uint())?;
            let v: u64 = lift(n.to_u64())?;
            Some(v)
        } else {
            None
        };
        lift(reader.finish())?;
        Ok(Self { ca, path_len_constraint })
    }
}

impl Default for BasicConstraints {
    fn default() -> (r: Self)
        ensures
            r == (BasicConstraints { ca: false, path_len_constraint: None }),
    {
        Self { ca: false, path_len_constraint: None }
    }
}

/// The bits of `b` in reverse: its highest bit is 1.
pub open spec fn reversed(b: u8) -> u16 {
    (b / 128 + b / 64 % 2 * 2 + b / 32 % 2 * 4 + b / 16 % 2 * 8 + b / 8 % 2 * 16 + b / 4 % 2 * 32 + b / 2
        % 2 * 64 + b % 2 * 128) as u16
}

/// The key usages in `value`: a bit string of one or two octets, of which the
/// last bit is set and the ninth is the last there is.
pub open spec fn key_usage(value: Seq<u8>) -> Result<u16, DerError> {
    match der_bit_string(value) {
        Err(e) => Err(e),
        Ok(b) => if after_tlv(value).len() > 0 {
            Err(DerError::Trailing)
        } else {
            let content = b.skip(1);
            if content.len() == 0 || content.len() > 2 || content.last() / pow2_below_8(b[0]) % 2 == 0
                || content.last() % pow2_below_8(b[0]) != 0 || content.len() == 2 && content[1] != 0x80 {
                Err(DerError::BadBitString)
            } else if content.len() == 2 {
                Ok((reversed(content[0]) + 256) as u16)
            } else {
                Ok(reversed(content[0]))
            }
        },
    }
}

/// What a key may be used for.
#[derive(Debug, Clone, Copy, PartialEq, Eq, Structural)]
pub struct KeyUsage {
    bits: u16,
}

impl View for KeyUsage {
    type V = u16;

    closed spec fn view(&self) -> u16 {
        self.bits
    }
}

impl KeyUsage {
    pub const DIGITAL_SIGNATURE: u16 = 1;

    pub const NON_REPUDIATION: u16 = 2;

    pub const KEY_ENCIPHERMENT: u16 = 4;

    pub const DATA_ENCIPHERMENT: u16 = 8;

    pub const KEY_AGREEMENT: u16 = 16;

    pub const KEY_CERT_SIGN: u16 = 32;

    pub const CRL_SIGN: u16 = 64;

    pub const ENCIPHER_ONLY: u16 = 128;

    pub const DECIPHER_ONLY: u16 = 256;

    /// Whether every usage in `mask` is allowed.
    pub fn has(&self, mask: u16) -> (r: bool)
        ensures
            r == (self@ & mask == mask),
    {
        self.bits & mask == mask
    }

    /// The usages, the first as the lowest bit.
    pub fn raw_bits(&self) -> (r: u16)
        ensures
            r == self@,
    {
        self.bits
    }

    /// Reads an extension value.
    pub fn parse(value: &[u8]) -> (r: Result<Self, Error>)
        ensures
            match key_usage(value@) {
                Ok(b) => r is Ok && r->Ok_0@ == b,
                Err(e) => r == Err::<Self, Error>(Error::Der(e)),
            },
    {
        let mut reader = Reader::new(value);
        let bit_string = lift(reader.read_bit_string())?;
        lift(reader.finish())?;
        let content = bit_string.as_bytes();
        if content.len() == 0 || content.len() > 2 {
            return Err(Error::Der(DerError::BadBitString));
        }
        let last: u8 = content[content.len() - 1];
        let unit: u8 = low_bits(bit_string.unused_bits());
        if last / unit % 2 == 0 || last % unit != 0 || (content.len() == 2 && last != 0x80) {
            return Err(Error::Der(DerError::BadBitString));
        }
        let b: u16 = content[0] as u16;
        let mut bits: u16 = b / 128 + b / 64 % 2 * 2 + b / 32 % 2 * 4 + b / 16 % 2 * 8 + b / 8 % 2 * 16 + b
            / 4 % 2 * 32 + b / 2 % 2 * 64 + b % 2 * 128;
        if content.len() == 2 {
            bits = bits + 256;
        }
        Ok(Self { bits })
    }

    /// The key purposes in `value`, at most as many as a list may have, and possibly
    /// none.
    pub fn parse_extended<'a>(value: &'a [u8]) -> (r: Result<
        ArrayVec<&'a [u8], MAX_EXTENSION_VALUES>,
        Error,
    >)
        ensures
            match der_whole(value@, Tag::SEQUENCE) {
                Err(e) => r matches Err(d) && d == Error::Der(e),
                Ok(c) => match purposes(c, 0) {
                    Ok(l) => r matches Ok(v) && slices(v) == l,
                    Err(e) => r matches Err(d) && d == e,
                },
            },
    {
        let inner = lift(read_whole(value, Tag(Tag::SEQUENCE)))?;
        let mut reader = Reader::new(inner);
        let mut out = new_slices();
        let ghost all = purposes(inner@, 0);
        proof {
            if let Ok(l) = all {
                assert(l =~= slices(out) + l);
            }
        }
        while !reader.is_empty()
            invariant
                slices(out).len() <= MAX_EXTENSION_VALUES,
                der_whole(value@, Tag::SEQUENCE) == Ok::<Seq<u8>, DerError>(inner@),
                all == purposes(inner@, 0),
                all == match purposes(reader@, slices(out).len()) {
                    Ok(l) => Ok::<Seq<Seq<u8>>, Error>(slices(out) + l),
                    Err(e) => Err(e),
                },
            decreases reader@.len(),
        {
            let ghost before = slices(out);
            proof {
                lemma_tlv_consumes(reader@);
            }
            let oid = lift(reader.read_tagged(Tag(Tag::OID)))?;
            if !push_slice(&mut out, oid) {
                return Err(Error::TooManyEntries);
            }
            proof {
                if let Ok(l) = purposes(reader@, slices(out).len()) {
                    assert(before + (seq![oid@] + l) =~= slices(out) + l);
                }
            }
        }
        assert(slices(out) + Seq::empty() =~= slices(out));
        Ok(out)
    }
}

impl Default for KeyUsage {
    fn default() -> (r: Self)
        ensures
            r@ == 0,
    {
        Self { bits: 0 }
    }
}

/// The contents of the object identifiers in `s`, before which `n` were read.
pub open spec fn purposes(s: Seq<u8>, n: nat) -> Result<Seq<Seq<u8>>, Error>
    decreases s.len(),
{
    if s.len() == 0 {
        Ok(Seq::empty())
    } else {
        match der_tagged(s, Tag::OID) {
            Err(e) => Err(Error::Der(e)),
            Ok(c) => if n >= MAX_EXTENSION_VALUES {
                Err(Error::TooManyEntries)
            } else {
                proof {
                    lemma_tlv_consumes(s);
                }
                match purposes(after_tlv(s), n + 1) {
                    Ok(l) => Ok(seq![c] + l),
                    Err(e) => Err(e),
                }
            },
        }
    }
}

#[verifier::external_type_specification]
#[verifier::external_body]
#[verifier::reject_recursive_types(T)]
pub struct ExArrayVec<T, const CAP: usize>(ArrayVec<T, CAP>);

/// What a list of byte strings holds, in order.
pub uninterp spec fn slices(v: ArrayVec<&[u8], 64>) -> Seq<Seq<u8>>;

/// `ArrayVec::new`: an empty list.
#[verifier::external_body]
fn new_slices<'a>() -> (r: ArrayVec<&'a [u8], 64>)
    ensures
        slices(r) == Seq::<Seq<u8>>::empty(),
{
    ArrayVec::new()
}

/// `ArrayVec::try_push`: appends where the list has fewer than its capacity of
/// entries, and otherwise leaves it as it is.
#[verifier::external_body]
fn push_slice<'a>(v: &mut ArrayVec<&'a [u8], 64>, s: &'a [u8]) -> (r: bool)
    ensures
        r == (slices(*old(v)).len() < 64),
        r ==> slices(*final(v)) == slices(*old(v)).push(s@),
        !r ==> *final(v) == *old(v),
{
    v.try_push(s).is_ok()
}

/// The key purposes in `s`, before which `n` were read.
pub open spec fn usages(s: Seq<u8>, n: nat) -> Result<Seq<Seq<u8>>, Error>
    decreases s.len(),
{
    if s.len() == 0 {
        if n == 0 {
            Err(Error::Der(DerError::Mismatch))
        } else {
            Ok(Seq::empty())
        }
    } else {
        match der_oid(s) {
            Err(e) => Err(Error::Der(e)),
            Ok(c) => if n >= MAX_EXTENSION_VALUES {
                Err(Error::TooManyEntries)
            } else {
                proof {
                    lemma_tlv_consumes(s);
                }
                match usages(after_tlv(s), n + 1) {
                    Ok(l) => Ok(seq![c] + l),
                    Err(e) => Err(e),
                }
            },
        }
    }
}

/// Whether reading succeeds, and the error where it does not.
pub open spec fn outcome<T>(r: Result<T, Error>) -> Option<Error> {
    match r {
        Ok(_) => None,
        Err(e) => Some(e),
    }
}

/// The key purposes in an extension value: at least one.
pub open spec fn extended_key_usage(value: Seq<u8>) -> Result<Seq<Seq<u8>>, Error> {
    match der_whole(value, Tag::SEQUENCE) {
        Err(e) => Err(Error::Der(e)),
        Ok(c) => usages(c, 0),
    }
}

/// What a key may be used for, as object identifiers.
#[derive(Debug, Clone, Copy)]
pub struct ExtendedKeyUsages<'a> {
    contents: &'a [u8],
}

impl<'a> View for ExtendedKeyUsages<'a> {
    type V = Seq<Seq<u8>>;

    closed spec fn view(&self) -> Seq<Seq<u8>> {
        usages(self.contents@, 0)->Ok_0
    }
}

impl<'a> ExtendedKeyUsages<'a> {
    #[verifier::type_invariant]
    spec fn valid(self) -> bool {
        usages(self.contents@, 0) is Ok
    }

    /// Reads an extension value.
    pub fn parse(value: &'a [u8]) -> (r: Result<Self, Error>)
        ensures
            match extended_key_usage(value@) {
                Ok(l) => r is Ok && r->Ok_0@ == l,
                Err(e) => r matches Err(d) && d == e,
            },
    {
        let contents = lift(read_whole(value, Tag(Tag::SEQUENCE)))?;
        let mut reader = Reader::new(contents);
        let mut count: usize = 0;
        while !reader.is_empty()
            invariant
                count <= MAX_EXTENSION_VALUES,
                der_whole(value@, Tag::SEQUENCE) == Ok::<Seq<u8>, DerError>(contents@),
                outcome(usages(contents@, 0)) == outcome(usages(reader@, count as nat)),
            decreases reader@.len(),
        {
            proof {
                lemma_tlv_consumes(reader@);
            }
            let _oid = lift(reader.read_oid())?;
            if count >= MAX_EXTENSION_VALUES {
                return Err(Error::TooManyEntries);
            }
            count = count + 1;
        }
        if count == 0 {
            return Err(Error::Der(DerError::Mismatch));
        }
        Ok(Self { contents })
    }

    /// An iteration over the key purposes.
    pub fn iter(self) -> (r: ExtendedKeyUsageIter<'a>)
        ensures
            r@ == self@,
            r@.len() > 0,
    {
        proof {
            use_type_invariant(&self);
        }
        ExtendedKeyUsageIter { reader: Reader::new(self.contents), first: Ghost(0) }
    }
}

/// An iteration over key purposes; its view is those that are left.
pub struct ExtendedKeyUsageIter<'a> {
    reader: Reader<'a>,
    first: Ghost<nat>,
}

impl<'a> View for ExtendedKeyUsageIter<'a> {
    type V = Seq<Seq<u8>>;

    closed spec fn view(&self) -> Seq<Seq<u8>> {
        usages(self.reader@, self.first@)->Ok_0
    }
}

impl<'a> ExtendedKeyUsageIter<'a> {
    #[verifier::type_invariant]
    spec fn valid(self) -> bool {
        usages(self.reader@, self.first@) is Ok
    }

    /// The next key purpose.
    pub fn next(&mut self) -> (r: Option<Result<Oid<'a>, Error>>)
        ensures
            old(self)@.len() == 0 ==> r is None && final(self)@ == old(self)@,
            old(self)@.len() > 0 ==> {
                &&& r is Some
                &&& r->0 is Ok
                &&& r->0->Ok_0@ == old(self)@[0]
                &&& final(self)@ == old(self)@.skip(1)
            },
    {
        proof {
            use_type_invariant(&*self);
        }
        let mut reader = self.reader;
        if reader.is_empty() {
            return None;
        }
        let ghost before = self@;
        match reader.read_oid() {
            Ok(oid) => {
                *self = Self { reader, first: Ghost(self.first@ + 1) };
                assert(before.skip(1) =~= self@);
                Some(Ok(oid))
            },
            Err(e) => Some(Err(Error::from(e))),
        }
    }
}

} // verus!
