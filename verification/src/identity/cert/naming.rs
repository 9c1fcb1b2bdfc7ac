//! How names are put together, and when they are the same.

use vstd::prelude::*;

use crate::identity::asn1::{after_tlv, is_oid, DerError};
use crate::identity::cert::dn::{attribute_at, names_match, rdns_match, AttributeView};
use crate::identity::cert::laws::{lemma_tlv, lemma_whole, tlv};

verus! {

/// The parts of a name one behind the other, each a set of attributes.
pub open spec fn name_parts_bytes(l: Seq<Seq<u8>>) -> Seq<u8>
    decreases l.len(),
{
    if l.len() == 0 {
        Seq::empty()
    } else {
        tlv(0x31, l[0]) + name_parts_bytes(l.skip(1))
    }
}

#[verifier::rlimit(40)]
proof fn lemma_first_parts(x: Seq<u8>, s: Seq<u8>, y: Seq<u8>, t: Seq<u8>)
    requires
        x.len() <= usize::MAX,
        y.len() <= usize::MAX,
    ensures
        names_match(tlv(0x31, x) + s, tlv(0x31, y) + t) == (rdns_match(x, y) && names_match(s, t)),
        !names_match(tlv(0x31, x) + s, Seq::empty()),
        !names_match(Seq::empty(), tlv(0x31, y) + t),
        names_match(Seq::empty(), Seq::empty()),
{
    lemma_tlv(0x31, x, s);
    lemma_tlv(0x31, y, t);
}

/// Whether parts of names are the same, one by one.
pub open spec fn same_parts(a: Seq<Seq<u8>>, b: Seq<Seq<u8>>) -> bool {
    a.len() == b.len() && forall|i: int| 0 <= i < a.len() ==> #[trigger] same_part(a, b, i)
}

/// Whether the parts of two names at a place are the same.
pub open spec fn same_part(a: Seq<Seq<u8>>, b: Seq<Seq<u8>>, i: int) -> bool {
    rdns_match(a[i], b[i])
}

proof fn lemma_same_parts(a: Seq<Seq<u8>>, b: Seq<Seq<u8>>, first: bool)
    requires
        a.len() > 0,
        b.len() > 0,
        first == same_part(a, b, 0),
    ensures
        same_parts(a, b) == (first && same_parts(a.skip(1), b.skip(1))),
{
    let s = a.skip(1);
    let t = b.skip(1);
    assert forall|i: int| 0 <= i < s.len() && s.len() == t.len() implies #[trigger] same_part(s, t, i) == same_part(
        a,
        b,
        i + 1,
    ) by {
        assert(s[i] == a[i + 1] && t[i] == b[i + 1]);
    }
    if first && same_parts(s, t) {
        assert forall|i: int| 0 <= i < a.len() implies #[trigger] same_part(a, b, i) by {
            if i > 0 {
                assert(same_part(s, t, i - 1));
            }
        }
    }
    if same_parts(a, b) {
        assert forall|i: int| 0 <= i < s.len() implies #[trigger] same_part(s, t, i) by {
            assert(same_part(a, b, i + 1));
        }
    }
}

/// Names are compared part by part, in their order: they match where they have as many
/// parts and each is the same as the other's.
#[verifier::rlimit(40)]
pub proof fn law_names_part_by_part(a: Seq<Seq<u8>>, b: Seq<Seq<u8>>)
    requires
        name_parts_bytes(a).len() <= usize::MAX,
        name_parts_bytes(b).len() <= usize::MAX,
    ensures
        names_match(name_parts_bytes(a), name_parts_bytes(b)) <==> same_parts(a, b),
    decreases a.len(),
{
    let x = if a.len() > 0 {
        a[0]
    } else {
        Seq::empty()
    };
    let y = if b.len() > 0 {
        b[0]
    } else {
        Seq::empty()
    };
    let s = name_parts_bytes(a.skip(1));
    let t = name_parts_bytes(b.skip(1));
    if a.len() > 0 {
        assert(tlv(0x31, x).len() > x.len());
    }
    if b.len() > 0 {
        assert(tlv(0x31, y).len() > y.len());
    }
    lemma_first_parts(x, s, y, t);
    if a.len() > 0 && b.len() > 0 {
        law_names_part_by_part(a.skip(1), b.skip(1));
        lemma_same_parts(a, b, same_part(a, b, 0));
    }
}

/// An attribute of a name is read for its type and its value, whatever follows it.
pub proof fn law_attribute_is_read(oid: Seq<u8>, tag: u8, contents: Seq<u8>, rest: Seq<u8>)
    requires
        is_oid(oid),
        tag != 0,
        tag % 32 != 31,
        tlv(0x30, tlv(0x06, oid) + tlv(tag, contents)).len() <= usize::MAX,
    ensures
        attribute_at(tlv(0x30, tlv(0x06, oid) + tlv(tag, contents)) + rest) == Ok::<AttributeView, DerError>(
            AttributeView { oid, tag, contents },
        ),
        after_tlv(tlv(0x30, tlv(0x06, oid) + tlv(tag, contents)) + rest) == rest,
{
    reveal(attribute_at);
    let c = tlv(0x06, oid) + tlv(tag, contents);
    assert(tlv(0x30, c).len() > c.len());
    assert(tlv(0x06, oid).len() > oid.len());
    assert(tlv(tag, contents).len() > contents.len());
    lemma_tlv(0x30, c, rest);
    lemma_tlv(0x06, oid, tlv(tag, contents));
    lemma_whole(tag, contents);
}

} // verus!
