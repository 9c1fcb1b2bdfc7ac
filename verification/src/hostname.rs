//! Names that a certificate presents against the name that was asked for, with
//! wildcards that may be part of a label.

use vstd::prelude::*;
use vstd::slice::slice_subrange;

use crate::codec::bytes_eq;
use crate::identity::cert::dn::lower_byte;
use crate::identity::cert::ext::scope::{ascii_case_eq, same_ascii};
use crate::identity::time::is_digit;

verus! {

/// Where `b` first stands in `s`; the length of `s` where it does not.
pub open spec fn position(s: Seq<u8>, b: u8) -> int
    decreases s.len(),
{
    if s.len() == 0 {
        0
    } else if s[0] == b {
        0
    } else {
        1 + position(s.skip(1), b)
    }
}

/// Nothing before the position is the byte, and what stands there is.
pub proof fn lemma_position(s: Seq<u8>, b: u8)
    ensures
        0 <= position(s, b) <= s.len(),
        position(s, b) < s.len() ==> s[position(s, b)] == b,
        forall|i: int| 0 <= i < position(s, b) ==> #[trigger] s[i] != b,
    decreases s.len(),
{
    if s.len() > 0 && s[0] != b {
        let t = s.skip(1);
        lemma_position(t, b);
        assert forall|i: int| 0 <= i < position(s, b) implies #[trigger] s[i] != b by {
            if i > 0 {
                assert(s[i] == t[i - 1]);
            }
        }
    }
}

/// Where `needle` first stands in `haystack`.
pub(crate) fn memchr(needle: u8, haystack: &[u8]) -> (r: Option<usize>)
    ensures
        match r {
            Some(i) => i < haystack.len() && i == position(haystack@, needle),
            None => position(haystack@, needle) == haystack@.len(),
        },
{
    proof {
        lemma_position(haystack@, needle);
    }
    let mut i: usize = 0;
    while i < haystack.len()
        invariant
            i <= haystack.len(),
            i <= position(haystack@, needle) <= haystack@.len(),
            position(haystack@, needle) < haystack@.len() ==> haystack@[position(haystack@, needle)]
                == needle,
            forall|j: int| 0 <= j < position(haystack@, needle) ==> #[trigger] haystack@[j] != needle,
        decreases haystack.len() - i,
    {
        if haystack[i] == needle {
            return Some(i);
        }
        i = i + 1;
    }
    None
}

/// Bytes without a dot at their end.
pub open spec fn trimmed(s: Seq<u8>) -> Seq<u8> {
    if s.len() > 0 && s.last() == 0x2e {
        s.drop_last()
    } else {
        s
    }
}

/// Bytes without a dot at their end.
pub(crate) fn trim_trailing_dot(s: &[u8]) -> (r: &[u8])
    ensures
        r@ == trimmed(s@),
{
    if s.len() > 0 && s[s.len() - 1] == 0x2e {
        let r = slice_subrange(s, 0, s.len() - 1);
        assert(r@ =~= s@.drop_last());
        r
    } else {
        s
    }
}

/// Whether a label matches a pattern in which one star stands for at least one
/// byte.
pub open spec fn label_matches(pattern: Seq<u8>, label: Seq<u8>) -> bool {
    let star = position(pattern, 0x2a);
    if star >= pattern.len() {
        same_ascii(pattern, label)
    } else {
        let suffix = pattern.skip(star + 1);
        &&& !suffix.contains(0x2a)
        &&& label.len() > star + suffix.len()
        &&& same_ascii(label.take(star), pattern.take(star))
        &&& same_ascii(label.skip(label.len() - suffix.len()), suffix)
    }
}

/// Whether a presented DNS name, whose first label may have a star, matches a
/// reference name.
pub open spec fn presented_matches(presented: Seq<u8>, reference: Seq<u8>) -> bool {
    let p = trimmed(presented);
    let r = trimmed(reference);
    let dot = position(p, 0x2e);
    if dot < p.len() && p.take(dot).contains(0x2a) {
        let cut = position(r, 0x2e);
        cut < r.len() && same_ascii(r.skip(cut + 1), p.skip(dot + 1)) && label_matches(
            p.take(dot),
            r.take(cut),
        )
    } else {
        same_ascii(p, r)
    }
}

/// A name without a star matches the same names whatever the case of its letters.
pub proof fn law_match_ignores_case(presented: Seq<u8>, other: Seq<u8>, reference: Seq<u8>)
    requires
        same_ascii(trimmed(presented), trimmed(other)),
        !trimmed(presented).contains(0x2a),
        !trimmed(other).contains(0x2a),
    ensures
        presented_matches(presented, reference) == presented_matches(other, reference),
{
    let p = trimmed(presented);
    let q = trimmed(other);
    lemma_position(p, 0x2e);
    lemma_position(q, 0x2e);
    assert forall|n: int| 0 <= n <= p.len() implies !#[trigger] p.take(n).contains(0x2a) by {
        if p.take(n).contains(0x2a) {
            let i = choose|i: int| 0 <= i < n && p.take(n)[i] == 0x2a;
            assert(p[i] == 0x2a);
        }
    }
    assert forall|n: int| 0 <= n <= q.len() implies !#[trigger] q.take(n).contains(0x2a) by {
        if q.take(n).contains(0x2a) {
            let i = choose|i: int| 0 <= i < n && q.take(n)[i] == 0x2a;
            assert(q[i] == 0x2a);
        }
    }
    let r = trimmed(reference);
    if same_ascii(p, r) {
        assert forall|i: int| 0 <= i < q.len() implies lower_byte(#[trigger] q[i]) == lower_byte(r[i]) by {
            assert(lower_byte(p[i]) == lower_byte(q[i]));
        }
    }
    if same_ascii(q, r) {
        assert forall|i: int| 0 <= i < p.len() implies lower_byte(#[trigger] p[i]) == lower_byte(r[i]) by {
            assert(lower_byte(q[i]) == lower_byte(r[i]));
        }
    }
}

/// A name in which no byte is a star matches itself.
pub proof fn law_match_reflexive(name: Seq<u8>)
    requires
        !trimmed(name).contains(0x2a),
    ensures
        presented_matches(name, name),
{
    let p = trimmed(name);
    lemma_position(p, 0x2e);
    let dot = position(p, 0x2e);
    if dot < p.len() && p.take(dot).contains(0x2a) {
        let i = choose|i: int| 0 <= i < dot && p.take(dot)[i] == 0x2a;
        assert(p[i] == 0x2a);
    }
}

/// Whether a name is written as an IP address: it has a colon, or only digits and
/// dots.
pub open spec fn looks_like_ip(h: Seq<u8>) -> bool {
    &&& h.len() > 0
    &&& h.contains(0x3a) || forall|i: int|
        0 <= i < h.len() ==> is_digit(#[trigger] h[i]) || h[i] == 0x2e
}

/// Matching of presented names.
pub struct Hostname;

impl Hostname {
    /// Whether a presented DNS name matches a reference name.
    pub fn dns_matches(presented: &[u8], reference: &[u8]) -> (r: bool)
        ensures
            r == presented_matches(presented@, reference@),
    {
        let p = trim_trailing_dot(presented);
        let r = trim_trailing_dot(reference);
        if let Some(dot) = memchr(0x2e, p) {
            let leftmost = slice_subrange(p, 0, dot);
            assert(leftmost@ =~= p@.take(dot as int));
            if has_byte(leftmost, 0x2a) {
                let rest = slice_subrange(p, dot + 1, p.len());
                assert(rest@ =~= p@.skip(dot + 1));
                return match memchr(0x2e, r) {
                    Some(cut) => {
                        let label = slice_subrange(r, 0, cut);
                        let ref_rest = slice_subrange(r, cut + 1, r.len());
                        assert(label@ =~= r@.take(cut as int));
                        assert(ref_rest@ =~= r@.skip(cut + 1));
                        ascii_case_eq(ref_rest, rest) && Self::wildcard_label_matches(leftmost, label)
                    },
                    None => false,
                };
            }
        }
        ascii_case_eq(p, r)
    }

    /// Whether a presented IP address is the reference address.
    pub fn ip_matches(presented: &[u8], reference: &[u8]) -> (r: bool)
        ensures
            r == (presented@ == reference@),
    {
        bytes_eq(presented, reference)
    }

    /// Whether a name is written as an IP address.
    pub fn is_ip_literal(h: &[u8]) -> (r: bool)
        ensures
            r == looks_like_ip(h@),
    {
        if h.len() == 0 {
            return false;
        }
        if has_byte(h, 0x3a) {
            return true;
        }
        let mut i: usize = 0;
        while i < h.len()
            invariant
                i <= h.len(),
                !h@.contains(0x3a),
                forall|j: int| 0 <= j < i ==> is_digit(#[trigger] h@[j]) || h@[j] == 0x2e,
            decreases h.len() - i,
        {
            let b: u8 = h[i];
            if !((b >= 0x30 && b <= 0x39) || b == 0x2e) {
                assert(!is_digit(h@[i as int]) && h@[i as int] != 0x2e);
                return false;
            }
            i = i + 1;
        }
        true
    }

    fn wildcard_label_matches(pattern: &[u8], label: &[u8]) -> (r: bool)
        ensures
            r == label_matches(pattern@, label@),
    {
        let star: usize = match memchr(0x2a, pattern) {
            Some(i) => i,
            None => return ascii_case_eq(pattern, label),
        };
        let prefix = slice_subrange(pattern, 0, star);
        let suffix = slice_subrange(pattern, star + 1, pattern.len());
        assert(prefix@ =~= pattern@.take(star as int));
        assert(suffix@ =~= pattern@.skip(star + 1));
        if has_byte(suffix, 0x2a) || label.len() <= prefix.len() + suffix.len() {
            return false;
        }
        let n: usize = label.len() - suffix.len();
        let head = slice_subrange(label, 0, star);
        let tail = slice_subrange(label, n, label.len());
        assert(head@ =~= label@.take(star as int));
        assert(tail@ =~= label@.skip(n as int));
        ascii_case_eq(head, prefix) && ascii_case_eq(tail, suffix)
    }
}

/// Whether `b` is among the bytes.
pub(crate) fn has_byte(s: &[u8], b: u8) -> (r: bool)
    ensures
        r == s@.contains(b),
{
    proof {
        lemma_position(s@, b);
    }
    match memchr(b, s) {
        Some(i) => {
            assert(s@[i as int] == b);
            true
        },
        None => false,
    }
}

} // verus!
