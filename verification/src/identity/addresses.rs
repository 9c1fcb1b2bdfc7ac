//! Addresses, from the text that stands for them.

use vstd::prelude::*;

use crate::codec::be16;
use crate::hostname::{lemma_position, position};
use crate::identity::hostname::{
    decimal, decimal_octet, dotted, double_colon, groups, hex_digit, hex_group, hexadecimal,
    ip_address, is_hex, v6_part,
};
use crate::identity::time::is_digit;

verus! {

/// A byte in decimal.
pub open spec fn octet_text(n: u8) -> Seq<u8> {
    if n < 10 {
        seq![(48 + n) as u8]
    } else if n < 100 {
        seq![(48 + n / 10) as u8, (48 + n % 10) as u8]
    } else {
        seq![(48 + n / 100) as u8, (48 + n / 10 % 10) as u8, (48 + n % 10) as u8]
    }
}

proof fn lemma_octet(n: u8)
    ensures
        decimal_octet(octet_text(n)) == Some(n),
        forall|i: int| 0 <= i < octet_text(n).len() ==> #[trigger] is_digit(octet_text(n)[i]),
        !octet_text(n).contains(46),
        !octet_text(n).contains(58),
{
    let s = octet_text(n);
    reveal_with_fuel(decimal, 4);
    if n >= 10 {
        let t = s.drop_last();
        assert(t.len() == s.len() - 1);
        if n >= 100 {
            let u = t.drop_last();
            assert(u.drop_last() =~= Seq::empty());
            assert(u[0] == s[0] && t[1] == s[1]);
        } else {
            assert(t.drop_last() =~= Seq::empty());
            assert(t[0] == s[0]);
        }
    } else {
        assert(s.drop_last() =~= Seq::empty());
    }
    assert forall|i: int| 0 <= i < s.len() implies #[trigger] is_digit(s[i]) by {
        assert(i == 0 || i == 1 || i == 2);
    }
    assert(decimal(s) == n);
    if s.contains(46) {
        let i = choose|i: int| 0 <= i < s.len() && s[i] == 46;
        assert(is_digit(s[i]));
    }
    if s.contains(58) {
        let i = choose|i: int| 0 <= i < s.len() && s[i] == 58;
        assert(is_digit(s[i]));
    }
}

proof fn lemma_cut(front: Seq<u8>, b: u8, rest: Seq<u8>)
    requires
        !front.contains(b),
    ensures
        position(front + (seq![b] + rest), b) == front.len(),
        (front + (seq![b] + rest)).take(front.len() as int) == front,
        (front + (seq![b] + rest)).skip(front.len() as int + 1) == rest,
{
    let s = front + (seq![b] + rest);
    lemma_position(s, b);
    let p = position(s, b);
    assert(s[front.len() as int] == b);
    if p < front.len() {
        assert(front[p] == b);
    }
    assert(s.take(front.len() as int) =~= front);
    assert(s.skip(front.len() as int + 1) =~= rest);
}

proof fn lemma_no_cut(s: Seq<u8>, b: u8)
    requires
        !s.contains(b),
    ensures
        position(s, b) == s.len(),
        s.take(s.len() as int) == s,
{
    lemma_position(s, b);
    let p = position(s, b);
    if p < s.len() {
        assert(s[p] == b);
    }
    assert(s.take(s.len() as int) =~= s);
}

/// Four bytes in decimal with dots between them.
pub open spec fn dotted_text(a: u8, b: u8, c: u8, d: u8) -> Seq<u8> {
    octet_text(a) + (seq![46u8] + (octet_text(b) + (seq![46u8] + (octet_text(c) + (seq![46u8] + octet_text(d))))))
}

proof fn lemma_one_more(v: u8, rest: Seq<u8>, n: nat, l: Seq<u8>)
    requires
        n >= 1,
        dotted(rest, n) == Some(l),
        !rest.contains(58),
    ensures
        dotted(octet_text(v) + (seq![46u8] + rest), n + 1) == Some(seq![v] + l),
        !(octet_text(v) + (seq![46u8] + rest)).contains(58),
{
    let front = octet_text(v);
    let s = front + (seq![46u8] + rest);
    lemma_octet(v);
    lemma_cut(front, 46, rest);
    if s.contains(58) {
        let i = choose|i: int| 0 <= i < s.len() && s[i] == 58;
        if i < front.len() {
            assert(front[i] == 58);
        } else if i > front.len() {
            assert(rest[i - front.len() - 1] == 58);
        }
    }
}

/// Four bytes in decimal with dots between them stand for the address of those bytes.
pub proof fn law_dotted_address(a: u8, b: u8, c: u8, d: u8)
    ensures
        ip_address(dotted_text(a, b, c, d)) == Some(seq![a, b, c, d]),
{
    let s1 = octet_text(d);
    let s2 = octet_text(c) + (seq![46u8] + s1);
    let s3 = octet_text(b) + (seq![46u8] + s2);
    lemma_octet(d);
    lemma_no_cut(s1, 46);
    assert(dotted(s1, 1) == Some(seq![d]));
    lemma_one_more(c, s1, 1, seq![d]);
    lemma_one_more(b, s2, 2, seq![c] + seq![d]);
    lemma_one_more(a, s3, 3, seq![b] + (seq![c] + seq![d]));
    assert(seq![a] + (seq![b] + (seq![c] + seq![d])) =~= seq![a, b, c, d]);
}

/// A hexadecimal digit.
pub open spec fn hex_char(n: int) -> u8 {
    if n < 10 {
        (48 + n) as u8
    } else {
        (87 + n) as u8
    }
}

/// Two bytes in hexadecimal.
pub open spec fn group_text(hi: u8, lo: u8) -> Seq<u8> {
    seq![hex_char(hi as int / 16), hex_char(hi as int % 16), hex_char(lo as int / 16), hex_char(lo as int % 16)]
}

proof fn lemma_group(hi: u8, lo: u8)
    ensures
        hex_group(group_text(hi, lo)) == Some(seq![hi, lo]),
        !group_text(hi, lo).contains(58),
        !group_text(hi, lo).contains(46),
{
    let s = group_text(hi, lo);
    reveal_with_fuel(hexadecimal, 5);
    let s3 = s.drop_last();
    let s2 = s3.drop_last();
    let s1 = s2.drop_last();
    assert(s1.drop_last() =~= Seq::empty());
    assert(s3[2] == s[2] && s2[1] == s[1] && s1[0] == s[0]);
    assert forall|i: int| 0 <= i < s.len() implies is_hex(#[trigger] s[i]) by {
        assert(i == 0 || i == 1 || i == 2 || i == 3);
    }
    assert(hex_digit(s[0]) == hi as int / 16 && hex_digit(s[1]) == hi as int % 16);
    assert(hex_digit(s[2]) == lo as int / 16 && hex_digit(s[3]) == lo as int % 16);
    let n = hexadecimal(s);
    assert(hexadecimal(s1) == hi as int / 16);
    assert(hexadecimal(s2) == hi);
    assert(hexadecimal(s3) == hi * 16 + lo as int / 16);
    assert(n == hi * 256 + lo);
    assert(be16(n as u16) =~= seq![hi, lo]);
    if s.contains(58) {
        let i = choose|i: int| 0 <= i < s.len() && s[i] == 58;
        assert(is_hex(s[i]));
    }
    if s.contains(46) {
        let i = choose|i: int| 0 <= i < s.len() && s[i] == 46;
        assert(is_hex(s[i]));
    }
}

/// Groups of two bytes in hexadecimal with colons between them.
pub open spec fn groups_text(l: Seq<(u8, u8)>) -> Seq<u8>
    decreases l.len(),
{
    if l.len() == 0 {
        Seq::empty()
    } else if l.len() == 1 {
        group_text(l[0].0, l[0].1)
    } else {
        group_text(l[0].0, l[0].1) + (seq![58u8] + groups_text(l.skip(1)))
    }
}

/// The bytes of groups.
pub open spec fn groups_bytes(l: Seq<(u8, u8)>) -> Seq<u8>
    decreases l.len(),
{
    if l.len() == 0 {
        Seq::empty()
    } else {
        seq![l[0].0, l[0].1] + groups_bytes(l.skip(1))
    }
}

proof fn lemma_groups(l: Seq<(u8, u8)>)
    ensures
        l.len() > 0 ==> groups(groups_text(l)) == Some(groups_bytes(l)),
        groups_bytes(l).len() == 2 * l.len(),
        l.len() > 0 ==> groups_text(l).len() == 5 * l.len() - 1,
        forall|i: int| 0 <= i < groups_text(l).len() && i % 5 != 4 ==> #[trigger] groups_text(l)[i] != 58,
        forall|i: int| 0 <= i < groups_text(l).len() && i % 5 == 4 ==> #[trigger] groups_text(l)[i] == 58,
    decreases l.len(),
{
    if l.len() > 0 {
        let tail = l.skip(1);
        let g = group_text(l[0].0, l[0].1);
        let s = groups_text(l);
        lemma_groups(tail);
        lemma_group(l[0].0, l[0].1);
        if l.len() == 1 {
            assert(tail =~= Seq::empty());
            lemma_no_cut(g, 58);
            assert(groups_bytes(l) =~= seq![l[0].0, l[0].1]);
            assert forall|i: int| 0 <= i < s.len() && i % 5 != 4 implies #[trigger] s[i] != 58 by {
                assert(g.contains(g[i]));
            }
        } else {
            let rest = groups_text(tail);
            lemma_cut(g, 58, rest);
            assert(s == g + (seq![58u8] + rest));
            assert(groups(s) == Some(seq![l[0].0, l[0].1] + groups_bytes(tail)));
            assert forall|i: int| 0 <= i < s.len() && i % 5 != 4 implies #[trigger] s[i] != 58 by {
                if i < 4 {
                    assert(s[i] == g[i]);
                    assert(g.contains(g[i]));
                } else {
                    assert(s[i] == rest[i - 5]);
                    assert((i - 5) % 5 == i % 5);
                }
            }
            assert forall|i: int| 0 <= i < s.len() && i % 5 == 4 implies #[trigger] s[i] == 58 by {
                if i > 4 {
                    assert(s[i] == rest[i - 5]);
                    assert((i - 5) % 5 == i % 5);
                }
            }
        }
    }
}

proof fn lemma_first_pair(s: Seq<u8>, from: int, at: int)
    requires
        0 <= from <= at <= s.len(),
        forall|i: int| from <= i < at && i + 1 < s.len() ==> !(#[trigger] s[i] == 58 && s[i + 1] == 58),
        at < s.len() ==> at + 1 < s.len() && s[at] == 58 && s[at + 1] == 58,
    ensures
        double_colon(s, from) == at,
    decreases at - from,
{
    if from < at {
        if from + 1 < s.len() {
            lemma_first_pair(s, from + 1, at);
        }
    }
}

proof fn lemma_part(l: Seq<(u8, u8)>)
    requires
        l.len() <= 8,
    ensures
        v6_part(groups_text(l)) == Some(groups_bytes(l)),
        double_colon(groups_text(l), 0) >= groups_text(l).len(),
{
    lemma_groups(l);
    let s = groups_text(l);
    assert forall|i: int| 0 <= i < s.len() && i + 1 < s.len() implies !(#[trigger] s[i] == 58 && s[i + 1] == 58) by {
        if i % 5 == 4 {
            assert((i + 1) % 5 != 4);
        }
    }
    lemma_first_pair(s, 0, s.len() as int);
}

/// Eight groups in hexadecimal with colons between them stand for the address of their
/// bytes, and two colons in a row for as many zeros as are left out.
pub proof fn law_colon_address(l: Seq<(u8, u8)>, a: Seq<(u8, u8)>, b: Seq<(u8, u8)>)
    requires
        l.len() == 8,
        a.len() + b.len() < 8,
    ensures
        ip_address(groups_text(l)) == Some(groups_bytes(l)),
        ip_address(groups_text(a) + (seq![58u8, 58] + groups_text(b))) == Some(
            groups_bytes(a) + Seq::new((16 - 2 * a.len() - 2 * b.len()) as nat, |i: int| 0u8) + groups_bytes(b),
        ),
{
    lemma_groups(l);
    lemma_part(l);
    assert(groups_text(l)[4] == 58);
    lemma_groups(a);
    lemma_groups(b);
    lemma_part(a);
    lemma_part(b);
    let x = groups_text(a);
    let y = groups_text(b);
    let s = x + (seq![58u8, 58] + y);
    let n = x.len() as int;
    assert(s[n] == 58 && s[n + 1] == 58);
    assert forall|i: int| 0 <= i < n && i + 1 < s.len() implies !(#[trigger] s[i] == 58 && s[i + 1] == 58) by {
        assert(s[i] == x[i]);
        if i % 5 == 4 {
            assert((i + 1) % 5 != 4);
            assert(i + 1 < n);
            assert(s[i + 1] == x[i + 1]);
        }
    }
    lemma_first_pair(s, 0, n);
    assert(s.take(n) =~= x);
    assert(s.skip(n + 2) =~= y);
    assert(s.contains(58));
}

} // verus!
