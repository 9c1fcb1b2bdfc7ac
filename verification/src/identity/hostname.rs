//! The name or address that a peer's certificate is held against.

use arrayvec::ArrayVec;
use vstd::prelude::*;
use vstd::slice::slice_subrange;

use crate::codec::{be16, bytes_eq};
use crate::hostname::{has_byte, lemma_position, memchr, position, trim_trailing_dot, trimmed};
use crate::identity::cert::ext::scope::{ascii_case_eq, dns_labels, same_ascii, valid_dns_labels};
use crate::identity::time::is_digit;

verus! {

/// Whether bytes are nonempty labels with dots between them.
pub open spec fn is_name(s: Seq<u8>) -> bool {
    &&& s.len() > 0
    &&& s[0] != 0x2e
    &&& s.last() != 0x2e
    &&& forall|i: int| 0 <= i < s.len() ==> #[trigger] s[i] != 0
    &&& forall|i: int| 0 <= i < s.len() - 1 && #[trigger] s[i] == 0x2e ==> s[i + 1] != 0x2e
}

/// Whether a presented DNS name matches a reference name: it is the same name, or
/// it has a star for the first label of the reference and at least two labels
/// more.
pub open spec fn name_matches(presented: Seq<u8>, reference: Seq<u8>) -> bool {
    let p = trimmed(presented);
    let r = trimmed(reference);
    let dot = position(p, 0x2e);
    let cut = position(r, 0x2e);
    &&& is_name(p)
    &&& is_name(r)
    &&& if p.take(dot) == seq![0x2au8] && dot < p.len() {
        &&& p.skip(dot + 1).contains(0x2e)
        &&& cut < r.len()
        &&& same_ascii(r.skip(cut + 1), p.skip(dot + 1))
    } else {
        &&& !p.take(dot).contains(0x2a)
        &&& same_ascii(p, r)
    }
}

/// A star matches exactly one label: what it matches has as many labels behind
/// its first as the pattern has behind the star.
pub proof fn law_star_is_one_label(rest: Seq<u8>, reference: Seq<u8>)
    requires
        name_matches(seq![0x2au8, 0x2e] + rest, reference),
        rest.len() > 0,
        rest.last() != 0x2e,
    ensures
        exists|label: Seq<u8>|
            #![trigger label.len()]
            {
                &&& label.len() > 0
                &&& !label.contains(0x2e)
                &&& trimmed(reference).len() == label.len() + 1 + rest.len()
                &&& trimmed(reference).take(label.len() as int) == label
                &&& trimmed(reference)[label.len() as int] == 0x2e
                &&& same_ascii(trimmed(reference).skip(label.len() as int + 1), rest)
            },
{
    let presented = seq![0x2au8, 0x2e] + rest;
    let p = trimmed(presented);
    let r = trimmed(reference);
    assert(presented.last() == rest.last());
    assert(p =~= presented);
    lemma_position(p, 0x2e);
    assert(position(p, 0x2e) == 1) by {
        assert(p[0] == 0x2a && p[1] == 0x2e);
    }
    assert(p.take(1) =~= seq![0x2au8]);
    assert(p.skip(2) =~= rest);
    lemma_position(r, 0x2e);
    let label = r.take(position(r, 0x2e));
    assert(!label.contains(0x2e)) by {
        if label.contains(0x2e) {
            let i = choose|i: int| 0 <= i < label.len() && label[i] == 0x2e;
            assert(r[i] == 0x2e);
        }
    }
    assert(label.len() > 0);
}

/// The number that decimal digits stand for.
pub open spec fn decimal(s: Seq<u8>) -> nat
    decreases s.len(),
{
    if s.len() == 0 {
        0
    } else {
        decimal(s.drop_last()) * 10 + (s.last() - 0x30) as nat
    }
}

/// The octet in one to three decimal digits.
pub open spec fn decimal_octet(s: Seq<u8>) -> Option<u8> {
    if 1 <= s.len() <= 3 && (forall|i: int| 0 <= i < s.len() ==> is_digit(#[trigger] s[i])) && decimal(s)
        <= 255 {
        Some(decimal(s) as u8)
    } else {
        None
    }
}

/// The octets in exactly `n` decimal numbers with dots between them.
pub open spec fn dotted(s: Seq<u8>, n: nat) -> Option<Seq<u8>>
    decreases n,
{
    let dot = position(s, 0x2e);
    if n == 0 {
        None
    } else {
        match decimal_octet(s.take(dot)) {
            None => None,
            Some(v) => if n == 1 {
                if dot < s.len() {
                    None
                } else {
                    Some(seq![v])
                }
            } else if dot >= s.len() {
                None
            } else {
                match dotted(s.skip(dot + 1), (n - 1) as nat) {
                    None => None,
                    Some(l) => Some(seq![v] + l),
                }
            },
        }
    }
}

pub open spec fn is_hex(b: u8) -> bool {
    is_digit(b) || (0x41 <= b <= 0x46) || (0x61 <= b <= 0x66)
}

/// The value of a hexadecimal digit.
pub open spec fn hex_digit(b: u8) -> nat {
    if b >= 0x61 {
        (b - 0x57) as nat
    } else if b >= 0x41 {
        (b - 0x37) as nat
    } else {
        (b - 0x30) as nat
    }
}

/// The number that hexadecimal digits stand for.
pub open spec fn hexadecimal(s: Seq<u8>) -> nat
    decreases s.len(),
{
    if s.len() == 0 {
        0
    } else {
        hexadecimal(s.drop_last()) * 16 + hex_digit(s.last())
    }
}

/// The two octets in one to four hexadecimal digits.
pub open spec fn hex_group(s: Seq<u8>) -> Option<Seq<u8>> {
    if 1 <= s.len() <= 4 && forall|i: int| 0 <= i < s.len() ==> is_hex(#[trigger] s[i]) {
        Some(be16(hexadecimal(s) as u16))
    } else {
        None
    }
}

/// The octets in groups with colons between them, of which the last may be a
/// dotted IPv4 address.
pub open spec fn groups(s: Seq<u8>) -> Option<Seq<u8>>
    decreases s.len(),
{
    let colon = position(s, 0x3a);
    let token = s.take(colon);
    if token.contains(0x2e) {
        if colon < s.len() {
            None
        } else {
            dotted(token, 4)
        }
    } else {
        match hex_group(token) {
            None => None,
            Some(g) => if colon >= s.len() || colon < 0 {
                Some(g)
            } else {
                match groups(s.skip(colon + 1)) {
                    None => None,
                    Some(l) => Some(g + l),
                }
            },
        }
    }
}

/// The octets in a part of an IPv6 address: none, or groups of at most 16 octets.
pub open spec fn v6_part(s: Seq<u8>) -> Option<Seq<u8>> {
    if s.len() == 0 {
        Some(Seq::empty())
    } else {
        match groups(s) {
            Some(l) => if l.len() <= 16 {
                Some(l)
            } else {
                None
            },
            None => None,
        }
    }
}

/// Where two colons first stand together in `s` from `i` on; the length of `s`
/// where they do not.
pub open spec fn double_colon(s: Seq<u8>, i: int) -> int
    decreases s.len() - i,
{
    if i + 1 >= s.len() {
        s.len() as int
    } else if s[i] == 0x3a && s[i + 1] == 0x3a {
        i
    } else {
        double_colon(s, i + 1)
    }
}

/// The octets of an IPv6 address: eight groups, or fewer with one double colon for
/// those that are zero.
pub open spec fn ipv6(s: Seq<u8>) -> Option<Seq<u8>> {
    let cut = double_colon(s, 0);
    if cut >= s.len() {
        match v6_part(s) {
            Some(l) => if l.len() == 16 {
                Some(l)
            } else {
                None
            },
            None => None,
        }
    } else {
        let tail = s.skip(cut + 2);
        if double_colon(tail, 0) < tail.len() {
            None
        } else {
            match (v6_part(s.take(cut)), v6_part(tail)) {
                (Some(a), Some(b)) => if a.len() + b.len() >= 16 {
                    None
                } else {
                    Some(a + Seq::new((16 - a.len() - b.len()) as nat, |i: int| 0u8) + b)
                },
                _ => None,
            }
        }
    }
}

/// The octets of an IP address in text.
pub open spec fn ip_address(s: Seq<u8>) -> Option<Seq<u8>> {
    if s.contains(0x3a) {
        ipv6(s)
    } else {
        dotted(s, 4)
    }
}

/// A dotted address has as many octets as it has numbers.
pub proof fn lemma_dotted_len(s: Seq<u8>, n: nat)
    ensures
        dotted(s, n) matches Some(l) ==> l.len() == n,
    decreases n,
{
    if n > 1 {
        lemma_dotted_len(s.skip(position(s, 0x2e) + 1), (n - 1) as nat);
    }
}

/// An address has 4 or 16 octets.
pub proof fn law_address_length(s: Seq<u8>)
    ensures
        ip_address(s) matches Some(l) ==> l.len() == 4 || l.len() == 16,
{
    lemma_dotted_len(s, 4);
}

/// The octets that a list holds, in order.
pub uninterp spec fn octets(v: ArrayVec<u8, 16>) -> Seq<u8>;

/// `ArrayVec::new`: an empty list.
#[verifier::external_body]
fn new_octets() -> (r: ArrayVec<u8, 16>)
    ensures
        octets(r) == Seq::<u8>::empty(),
{
    ArrayVec::new()
}

/// `ArrayVec::try_push`: appends where the list has fewer than its capacity of
/// entries, and otherwise leaves it as it is.
#[verifier::external_body]
fn push_octet(v: &mut ArrayVec<u8, 16>, b: u8) -> (r: bool)
    ensures
        r == (octets(*old(v)).len() < 16),
        r ==> octets(*final(v)) == octets(*old(v)).push(b),
        !r ==> *final(v) == *old(v),
{
    v.try_push(b).is_ok()
}

/// `ArrayVec::try_extend_from_slice`: appends all of `s` where the list has room
/// for it, and otherwise leaves it as it is.
#[verifier::external_body]
fn extend_octets(v: &mut ArrayVec<u8, 16>, s: &[u8]) -> (r: bool)
    ensures
        r == (octets(*old(v)).len() + s@.len() <= 16),
        r ==> octets(*final(v)) == octets(*old(v)) + s@,
        !r ==> *final(v) == *old(v),
{
    v.try_extend_from_slice(s).is_ok()
}

/// `ArrayVec::as_slice`: the entries in order.
#[verifier::external_body]
pub(crate) fn octets_slice(v: &ArrayVec<u8, 16>) -> (r: &[u8])
    ensures
        r@ == octets(*v),
        r@.len() <= 16,
{
    v.as_slice()
}

/// A reference name or address.
#[derive(Clone, Copy)]
pub struct Hostname<'a>(&'a [u8]);

impl<'a> View for Hostname<'a> {
    type V = Seq<u8>;

    closed spec fn view(&self) -> Seq<u8> {
        self.0@
    }
}

impl<'a> Hostname<'a> {
    /// A reference name, or a reference address in its octets or in text.
    pub fn new(reference: &'a [u8]) -> (r: Self)
        ensures
            r@ == reference@,
    {
        Self(reference)
    }

    /// Whether a presented DNS name matches.
    pub fn matches_dns(self, presented: &[u8]) -> (r: bool)
        ensures
            r == name_matches(presented@, self@),
    {
        let p = trim_trailing_dot(presented);
        let r = trim_trailing_dot(self.0);
        if !Self::valid_name(p) || !Self::valid_name(r) {
            return false;
        }
        proof {
            lemma_position(p@, 0x2e);
        }
        match memchr(0x2e, p) {
            Some(dot) => {
                let label = slice_subrange(p, 0, dot);
                assert(label@ =~= p@.take(dot as int));
                if label.len() == 1 && label[0] == 0x2a {
                    assert(label@ =~= seq![0x2au8]);
                    let rest = slice_subrange(p, dot + 1, p.len());
                    assert(rest@ =~= p@.skip(dot + 1));
                    if !has_byte(rest, 0x2e) {
                        return false;
                    }
                    return match memchr(0x2e, r) {
                        Some(cut) => {
                            let ref_rest = slice_subrange(r, cut + 1, r.len());
                            assert(ref_rest@ =~= r@.skip(cut + 1));
                            ascii_case_eq(ref_rest, rest)
                        },
                        None => false,
                    };
                }
                assert(label@ != seq![0x2au8]) by {
                    if label@ == seq![0x2au8] {
                        assert(label@[0] == 0x2a);
                    }
                }
                if has_byte(label, 0x2a) {
                    return false;
                }
            },
            None => {
                assert(p@.take(p@.len() as int) =~= p@);
                if has_byte(p, 0x2a) {
                    return false;
                }
            },
        }
        ascii_case_eq(p, r)
    }

    fn valid_name(name: &[u8]) -> (r: bool)
        ensures
            r == is_name(name@),
    {
        let n: usize = name.len();
        if n == 0 || name[0] == 0x2e || name[n - 1] == 0x2e {
            return false;
        }
        let mut i: usize = 0;
        while i < n
            invariant
                i <= n,
                n == name@.len(),
                0 < n,
                name@[0] != 0x2e,
                name@.last() != 0x2e,
                forall|j: int| 0 <= j < i ==> #[trigger] name@[j] != 0,
                forall|j: int|
                    0 <= j < n - 1 && j < i && #[trigger] name@[j] == 0x2e ==> name@[j + 1] != 0x2e,
            decreases n - i,
        {
            if name[i] == 0 {
                assert(name@[i as int] == 0);
                return false;
            }
            if i + 1 < n && name[i] == 0x2e && name[i + 1] == 0x2e {
                assert(name@[i as int] == 0x2e && name@[i + 1] == 0x2e);
                return false;
            }
            i = i + 1;
        }
        true
    }

    /// Whether the reference is an IP address in text, or well-formed DNS labels
    /// without a star or a dot at the end.
    pub fn is_valid_reference(self) -> (r: bool)
        ensures
            r == (ip_address(self@) is Some || dns_labels(self@)),
    {
        if self.parse_ip().is_some() {
            return true;
        }
        valid_dns_labels(self.0)
    }

    /// Whether a presented IP address is the reference, as octets.
    pub fn matches_ip(self, presented: &[u8]) -> (r: bool)
        ensures
            r == (presented@ == self@),
    {
        bytes_eq(presented, self.0)
    }

    /// Whether the reference is an IP address in text.
    pub fn is_ip_literal(self) -> (r: bool)
        ensures
            r == (ip_address(self@) is Some),
    {
        self.parse_ip().is_some()
    }

    /// The octets of the reference, where it is an IP address in text.
    pub fn parse_ip(self) -> (r: Option<ArrayVec<u8, 16>>)
        ensures
            match ip_address(self@) {
                Some(l) => r is Some && octets(r->0) == l,
                None => r is None,
            },
    {
        if has_byte(self.0, 0x3a) {
            Self::parse_ipv6(self.0)
        } else {
            Self::parse_ipv4(self.0)
        }
    }

    fn parse_ipv4(text: &[u8]) -> (r: Option<ArrayVec<u8, 16>>)
        ensures
            match dotted(text@, 4) {
                Some(l) => r is Some && octets(r->0) == l,
                None => r is None,
            },
    {
        let mut out = new_octets();
        let mut rest = text;
        let mut left: usize = 4;
        let ghost all = dotted(text@, 4);
        proof {
            if let Some(l) = all {
                assert(l =~= octets(out) + l);
            }
        }
        while left > 1
            invariant
                1 <= left <= 4,
                octets(out).len() == 4 - left,
                all == dotted(text@, 4),
                all == match dotted(rest@, left as nat) {
                    Some(l) => Some(octets(out) + l),
                    None => None,
                },
            decreases left,
        {
            let ghost before = octets(out);
            let dot: usize = memchr(0x2e, rest)?;
            let part = slice_subrange(rest, 0, dot);
            assert(part@ =~= rest@.take(dot as int));
            let v: u8 = parse_decimal(part)?;
            push_octet(&mut out, v);
            let next = slice_subrange(rest, dot + 1, rest.len());
            assert(next@ =~= rest@.skip(dot + 1));
            rest = next;
            left = left - 1;
            proof {
                if let Some(l) = dotted(rest@, left as nat) {
                    assert(before + (seq![v] + l) =~= octets(out) + l);
                }
            }
        }
        let ghost before = octets(out);
        if memchr(0x2e, rest).is_some() {
            return None;
        }
        assert(rest@.take(rest@.len() as int) =~= rest@);
        let v: u8 = parse_decimal(rest)?;
        push_octet(&mut out, v);
        assert(before + seq![v] =~= octets(out));
        Some(out)
    }

    fn parse_ipv6(text: &[u8]) -> (r: Option<ArrayVec<u8, 16>>)
        ensures
            match ipv6(text@) {
                Some(l) => r is Some && octets(r->0) == l,
                None => r is None,
            },
    {
        let cut: usize = match find_double_colon(text) {
            None => {
                let out = Self::parse_v6_part(text)?;
                if octets_slice(&out).len() == 16 {
                    return Some(out);
                }
                return None;
            },
            Some(i) => i,
        };
        let head = slice_subrange(text, 0, cut);
        let tail = slice_subrange(text, cut + 2, text.len());
        assert(head@ =~= text@.take(cut as int));
        assert(tail@ =~= text@.skip(cut + 2));
        if find_double_colon(tail).is_some() {
            return None;
        }
        let mut out = Self::parse_v6_part(head)?;
        let end = Self::parse_v6_part(tail)?;
        let end_bytes = octets_slice(&end);
        let used: usize = octets_slice(&out).len() + end_bytes.len();
        if used >= 16 {
            return None;
        }
        let ghost first = octets(out);
        let zeros: usize = 16 - used;
        let mut i: usize = 0;
        assert(first + Seq::new(0, |i: int| 0u8) =~= first);
        while i < zeros
            invariant
                i <= zeros,
                first.len() + zeros + end_bytes@.len() == 16,
                octets(out) == first + Seq::new(i as nat, |i: int| 0u8),
            decreases zeros - i,
        {
            push_octet(&mut out, 0);
            i = i + 1;
            assert(octets(out) =~= first + Seq::new(i as nat, |i: int| 0u8));
        }
        extend_octets(&mut out, end_bytes);
        Some(out)
    }

    fn parse_v6_part(part: &[u8]) -> (r: Option<ArrayVec<u8, 16>>)
        ensures
            match v6_part(part@) {
                Some(l) => r is Some && octets(r->0) == l,
                None => r is None,
            },
    {
        let mut out = new_octets();
        if part.len() == 0 {
            assert(octets(out) =~= Seq::empty());
            return Some(out);
        }
        let mut rest = part;
        let ghost all = groups(part@);
        proof {
            if let Some(l) = all {
                assert(l =~= octets(out) + l);
            }
        }
        loop
            invariant
                part@.len() > 0,
                octets(out).len() <= 16,
                all == groups(part@),
                all == match groups(rest@) {
                    Some(l) => Some(octets(out) + l),
                    None => None,
                },
            decreases rest@.len(),
        {
            let ghost before = octets(out);
            proof {
                lemma_position(rest@, 0x3a);
            }
            let colon = memchr(0x3a, rest);
            let end: usize = match colon {
                Some(i) => i,
                None => rest.len(),
            };
            let token = slice_subrange(rest, 0, end);
            assert(token@ =~= rest@.take(end as int));
            if has_byte(token, 0x2e) {
                if colon.is_some() {
                    return None;
                }
                let v4 = Self::parse_ipv4(token)?;
                if !extend_octets(&mut out, octets_slice(&v4)) {
                    return None;
                }
                return Some(out);
            }
            let (hi, lo) = parse_hex_group(token)?;
            let pair: [u8; 2] = [hi, lo];
            assert(pair@ =~= seq![hi, lo]);
            if !extend_octets(&mut out, &pair) {
                proof {
                    if let Some(l) = all {
                        assert(l.len() > 16);
                    }
                }
                return None;
            }
            match colon {
                None => return Some(out),
                Some(i) => {
                    let next = slice_subrange(rest, i + 1, rest.len());
                    assert(next@ =~= rest@.skip(i + 1));
                    rest = next;
                    proof {
                        if let Some(l) = groups(rest@) {
                            assert(before + (pair@ + l) =~= octets(out) + l);
                        }
                    }
                },
            }
        }
    }
}

fn parse_decimal(part: &[u8]) -> (r: Option<u8>)
    ensures
        r == decimal_octet(part@),
{
    if part.len() == 0 || part.len() > 3 {
        return None;
    }
    let mut v: u32 = 0;
    let mut i: usize = 0;
    assert(part@.take(0) =~= Seq::empty());
    while i < part.len()
        invariant
            i <= part.len() <= 3,
            v == decimal(part@.take(i as int)),
            i == 0 ==> v == 0,
            i == 1 ==> v <= 9,
            i == 2 ==> v <= 99,
            i == 3 ==> v <= 999,
            forall|j: int| 0 <= j < i ==> is_digit(#[trigger] part@[j]),
        decreases part.len() - i,
    {
        let b: u8 = part[i];
        if b < 0x30 || b > 0x39 {
            assert(!is_digit(part@[i as int]));
            return None;
        }
        assert(part@.take(i + 1).drop_last() =~= part@.take(i as int));
        v = v * 10 + (b - 0x30) as u32;
        i = i + 1;
    }
    assert(part@.take(i as int) =~= part@);
    if v > 255 {
        return None;
    }
    Some(v as u8)
}

fn parse_hex_group(token: &[u8]) -> (r: Option<(u8, u8)>)
    ensures
        match hex_group(token@) {
            Some(g) => r is Some && g == seq![(r->0).0, (r->0).1],
            None => r is None,
        },
{
    if token.len() == 0 || token.len() > 4 {
        return None;
    }
    let mut v: u32 = 0;
    let mut i: usize = 0;
    assert(token@.take(0) =~= Seq::empty());
    while i < token.len()
        invariant
            i <= token.len() <= 4,
            v == hexadecimal(token@.take(i as int)),
            i == 0 ==> v == 0,
            i == 1 ==> v <= 0xf,
            i == 2 ==> v <= 0xff,
            i == 3 ==> v <= 0xfff,
            i == 4 ==> v <= 0xffff,
            forall|j: int| 0 <= j < i ==> is_hex(#[trigger] token@[j]),
        decreases token.len() - i,
    {
        let b: u8 = token[i];
        let d: u8 = if b >= 0x30 && b <= 0x39 {
            b - 0x30
        } else if b >= 0x41 && b <= 0x46 {
            b - 0x37
        } else if b >= 0x61 && b <= 0x66 {
            b - 0x57
        } else {
            assert(!is_hex(token@[i as int]));
            return None;
        };
        assert(token@.take(i + 1).drop_last() =~= token@.take(i as int));
        v = v * 16 + d as u32;
        i = i + 1;
    }
    assert(token@.take(i as int) =~= token@);
    let g: u16 = v as u16;
    Some(((g / 256) as u8, (g % 256) as u8))
}

fn find_double_colon(s: &[u8]) -> (r: Option<usize>)
    ensures
        match r {
            Some(i) => i + 1 < s.len() && i == double_colon(s@, 0),
            None => double_colon(s@, 0) >= s@.len(),
        },
{
    let n: usize = s.len();
    let mut i: usize = 0;
    while n >= 2 && i <= n - 2
        invariant
            n == s@.len(),
            i <= n,
            double_colon(s@, 0) == double_colon(s@, i as int),
        decreases n - i,
    {
        if s[i] == 0x3a && s[i + 1] == 0x3a {
            return Some(i);
        }
        i = i + 1;
    }
    None
}

} // verus!
