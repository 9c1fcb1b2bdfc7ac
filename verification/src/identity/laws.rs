//! Which names, addresses and times are meant.

use vstd::prelude::*;

use crate::hostname::{lemma_position, position, presented_matches, trimmed};
use crate::identity::cert::ext::scope::{in_dns_subtree, in_ip_subtree, same_ascii};
use crate::identity::hostname::{is_name, name_matches};
use crate::identity::time::{civil_seconds, digits, is_digit, two, x509_time};

verus! {

/// An ASCII letter in lower case, and any other byte as it is.
pub open spec fn small(b: u8) -> int {
    if 65 <= b <= 90 {
        b + 32
    } else {
        b as int
    }
}

/// Whether two names are spelled alike, but for the case of letters.
pub open spec fn alike(a: Seq<u8>, b: Seq<u8>) -> bool {
    a.len() == b.len() && forall|i: int| 0 <= i < a.len() ==> small(#[trigger] a[i]) == small(b[i])
}

proof fn lemma_alike(a: Seq<u8>, b: Seq<u8>)
    ensures
        same_ascii(a, b) <==> alike(a, b),
{
    if same_ascii(a, b) {
        assert forall|i: int| 0 <= i < a.len() implies small(#[trigger] a[i]) == small(b[i]) by {}
    }
    if alike(a, b) {
        assert(same_ascii(a, b));
    }
}

/// Whether bytes are a host name: labels that are not empty, with a dot between each and
/// the next.
pub open spec fn host_name(s: Seq<u8>) -> bool {
    &&& s.len() > 0
    &&& s[0] != 46
    &&& s[s.len() - 1] != 46
    &&& forall|i: int| 0 <= i < s.len() ==> #[trigger] s[i] != 0
    &&& forall|i: int, j: int| 0 <= i < s.len() - 1 && j == i + 1 ==> !(#[trigger] s[i] == 46 && #[trigger] s[j] == 46)
}

proof fn lemma_host_name(s: Seq<u8>)
    ensures
        is_name(s) <==> host_name(s),
{
    if host_name(s) {
        assert forall|i: int| 0 <= i < s.len() - 1 && #[trigger] s[i] == 0x2e implies s[i + 1] != 0x2e by {}
    }
}

/// Whether a name has a star in its first label.
pub open spec fn starred(s: Seq<u8>) -> bool {
    exists|i: int|
        0 <= i < s.len() && #[trigger] s[i] == 42 && forall|j: int| 0 <= j < i ==> #[trigger] s[j] != 46
}

proof fn lemma_starred(s: Seq<u8>)
    ensures
        starred(s) <==> s.take(position(s, 0x2e)).contains(0x2a),
{
    lemma_position(s, 0x2e);
    let dot = position(s, 0x2e);
    let first = s.take(dot);
    if starred(s) {
        let i = choose|i: int|
            0 <= i < s.len() && #[trigger] s[i] == 42 && forall|j: int| 0 <= j < i ==> #[trigger] s[j] != 46;
        assert(i < dot);
        assert(first[i] == 0x2a);
    }
    if first.contains(0x2a) {
        let i = choose|i: int| 0 <= i < first.len() && first[i] == 0x2a;
        assert(s[i] == 42);
    }
}

/// A name without a star in its first label is the name of the host that is spelled like
/// it, and of no other.
pub proof fn law_plain_name_is_itself(presented: Seq<u8>, host: Seq<u8>)
    requires
        host_name(presented),
        host_name(host),
        !starred(presented),
    ensures
        name_matches(presented, host) <==> alike(presented, host),
        presented_matches(presented, host) <==> alike(presented, host),
{
    lemma_host_name(presented);
    lemma_host_name(host);
    lemma_starred(presented);
    lemma_alike(presented, host);
    assert(trimmed(presented) == presented && trimmed(host) == host);
    let dot = position(presented, 0x2e);
    lemma_position(presented, 0x2e);
    if presented.take(dot) == seq![0x2au8] {
        assert(presented.take(dot)[0] == 0x2a);
    }
}

/// A dot at the end of a name makes no difference.
pub proof fn law_last_dot_is_dropped(presented: Seq<u8>, host: Seq<u8>)
    requires
        host_name(presented),
        host_name(host),
    ensures
        name_matches(presented.push(46), host) == name_matches(presented, host),
        name_matches(presented, host.push(46)) == name_matches(presented, host),
        presented_matches(presented.push(46), host) == presented_matches(presented, host),
        presented_matches(presented, host.push(46)) == presented_matches(presented, host),
{
    assert(presented.push(46).drop_last() =~= presented);
    assert(host.push(46).drop_last() =~= host);
}

/// Bytes that are no host name match nothing, whichever side they are on.
pub proof fn law_no_name_matches_nothing(presented: Seq<u8>, host: Seq<u8>)
    requires
        presented.len() == 0 || presented[presented.len() - 1] != 46,
        host.len() == 0 || host[host.len() - 1] != 46,
        !host_name(presented) || !host_name(host),
    ensures
        !name_matches(presented, host),
{
    lemma_host_name(presented);
    lemma_host_name(host);
}

proof fn lemma_position_at(front: Seq<u8>, b: u8, rest: Seq<u8>)
    requires
        !front.contains(b),
    ensures
        position(front + seq![b] + rest, b) == front.len(),
        (front + seq![b] + rest).take(front.len() as int) == front,
        (front + seq![b] + rest).skip(front.len() as int + 1) == rest,
{
    let s = front + seq![b] + rest;
    lemma_position(s, b);
    let p = position(s, b);
    assert(s[front.len() as int] == b);
    if p < front.len() {
        assert(front[p] == b);
    }
    assert(s.take(front.len() as int) =~= front);
    assert(s.skip(front.len() as int + 1) =~= rest);
}

/// A star in place of the first label stands for any one label, in front of a domain of
/// two labels or more.
pub proof fn law_star_stands_for_a_label(domain: Seq<u8>, label: Seq<u8>, under: Seq<u8>)
    requires
        host_name(domain),
        host_name(under),
        label.len() > 0,
        forall|i: int| 0 <= i < label.len() ==> #[trigger] label[i] != 46 && label[i] != 0,
    ensures
        name_matches(seq![42u8] + seq![46u8] + domain, label + seq![46u8] + under) <==> alike(under, domain)
            && domain.contains(46),
{
    let p = seq![42u8] + seq![46u8] + domain;
    let r = label + seq![46u8] + under;
    assert(!seq![42u8].contains(46)) by {
        assert(seq![42u8][0] == 42);
    }
    lemma_position_at(seq![42u8], 46, domain);
    lemma_position_at(label, 46, under);
    lemma_alike(under, domain);
    assert(host_name(p)) by {
        assert(p.last() == domain[domain.len() - 1]);
        assert(p[0] == 42);
        assert forall|i: int| 0 <= i < p.len() implies #[trigger] p[i] != 0 by {
            if i >= 2 {
                assert(p[i] == domain[i - 2]);
            }
        }
        assert forall|i: int, j: int| 0 <= i < p.len() - 1 && j == i + 1 implies !(#[trigger] p[i] == 46
            && #[trigger] p[j] == 46) by {
            if i >= 2 {
                assert(p[i] == domain[i - 2] && p[j] == domain[j - 2]);
            } else if i == 1 {
                assert(p[j] == domain[0]);
            }
        }
    }
    assert(host_name(r)) by {
        let n = label.len() as int;
        assert(r.last() == under[under.len() - 1]);
        assert(r[0] == label[0]);
        assert forall|i: int| 0 <= i < r.len() implies #[trigger] r[i] != 0 by {
            if i < n {
                assert(r[i] == label[i]);
            } else if i > n {
                assert(r[i] == under[i - n - 1]);
            }
        }
        assert forall|i: int, j: int| 0 <= i < r.len() - 1 && j == i + 1 implies !(#[trigger] r[i] == 46
            && #[trigger] r[j] == 46) by {
            if i < n {
                assert(r[i] == label[i]);
            } else if i == n {
                assert(r[j] == under[0]);
            } else {
                assert(r[i] == under[i - n - 1] && r[j] == under[j - n - 1]);
            }
        }
    }
    lemma_host_name(p);
    lemma_host_name(r);
    assert(trimmed(p) == p && trimmed(r) == r);
}

/// A star elsewhere in the first label makes a name match nothing.
pub proof fn law_star_stands_alone(presented: Seq<u8>, host: Seq<u8>)
    requires
        host_name(presented),
        starred(presented),
        !(presented.len() > 1 && presented[0] == 42 && presented[1] == 46),
    ensures
        !name_matches(presented, host),
{
    lemma_starred(presented);
    lemma_position(presented, 0x2e);
    let dot = position(presented, 0x2e);
    if presented.take(dot) == seq![0x2au8] && dot < presented.len() {
        assert(dot == 1);
        assert(presented.take(dot)[0] == 42);
        assert(presented[1] == 46);
    }
}

/// A domain lies in its own subtree, and so does every name below it; where the subtree
/// starts with a dot the domain itself does not. A name that only ends like the domain,
/// and any other, lies outside.
pub proof fn law_subtree_of_a_domain(domain: Seq<u8>, other: Seq<u8>, label: Seq<u8>)
    requires
        domain.len() > 0,
        domain[0] != 46,
    ensures
        in_dns_subtree(other, domain) <== alike(other, domain),
        in_dns_subtree(other, seq![46u8] + domain) && alike(other, domain) ==> false,
        alike(other, domain) ==> {
            &&& in_dns_subtree(label + seq![46u8] + other, domain)
            &&& in_dns_subtree(label + seq![46u8] + other, seq![46u8] + domain)
            &&& label.len() > 0 && label[label.len() - 1] != 46 ==> !in_dns_subtree(label + other, domain)
                && !in_dns_subtree(label + other, seq![46u8] + domain)
        },
        other.len() == domain.len() && !alike(other, domain) ==> {
            &&& !in_dns_subtree(other, domain)
            &&& !in_dns_subtree(label + other, domain)
            &&& !in_dns_subtree(label + other, seq![46u8] + domain)
        },
        other.len() < domain.len() ==> !in_dns_subtree(other, domain),
{
    let dotted_domain = seq![46u8] + domain;
    assert(dotted_domain.skip(1) =~= domain);
    assert(dotted_domain[0] == 46);
    lemma_alike(other, domain);
    let below = label + seq![46u8] + other;
    let joined = label + other;
    if other.len() == domain.len() {
        assert(below.skip(below.len() - domain.len()) =~= other);
        assert(joined.skip(joined.len() - domain.len()) =~= other);
        assert(below[below.len() - domain.len() - 1] == 46);
        lemma_alike(joined, domain);
        if label.len() == 0 {
            assert(joined =~= other);
        } else {
            assert(joined[joined.len() - domain.len() - 1] == label[label.len() - 1]);
        }
    }
}

/// An address lies in a network where it has the network's bytes as far as the mask goes.
pub proof fn law_network(address: Seq<u8>, network: Seq<u8>, k: int)
    requires
        address.len() == network.len(),
        0 <= k <= address.len(),
    ensures
        ({
            let mask = Seq::new(address.len(), |i: int| if i < k { 255u8 } else { 0u8 });
            in_ip_subtree(address, network + mask) <==> address.take(k) == network.take(k)
        }),
{
    let n = address.len() as int;
    let mask = Seq::new(address.len(), |i: int| if i < k { 255u8 } else { 0u8 });
    let both = network + mask;
    assert forall|x: u8| #[trigger] (x & 255u8) == x by {
        assert(x & 255u8 == x) by (bit_vector);
    }
    assert forall|x: u8| #[trigger] (x & 0u8) == 0 by {
        assert(x & 0u8 == 0) by (bit_vector);
    }
    assert forall|i: int| 0 <= i < n implies both[i] == network[i] && #[trigger] both[n + i] == mask[i] by {}
    if in_ip_subtree(address, both) {
        assert forall|i: int| 0 <= i < k implies #[trigger] address.take(k)[i] == network.take(k)[i] by {
            assert(address[i] & both[n + i] == both[i] & both[n + i]);
            assert(both[n + i] == 255);
        }
        assert(address.take(k) =~= network.take(k));
    }
    if address.take(k) == network.take(k) {
        assert forall|i: int| 0 <= i < n implies (#[trigger] address[i]) & both[n + i] == both[i] & both[n + i] by {
            if i < k {
                assert(address.take(k)[i] == network.take(k)[i]);
            }
            assert(both[n + i] == mask[i]);
        }
    }
}

/// Two decimal digits.
pub open spec fn two_digits(n: int) -> Seq<u8> {
    seq![(48 + n / 10) as u8, (48 + n % 10) as u8]
}

proof fn lemma_pair(b: Seq<u8>, i: int, n: int)
    requires
        0 <= n < 100,
        0 <= i,
        i + 2 <= b.len(),
        b[i] == two_digits(n)[0],
        b[i + 1] == two_digits(n)[1],
    ensures
        two(b, i) == n,
        is_digit(b[i]),
        is_digit(b[i + 1]),
{
    assert(0 <= n / 10 <= 9 && 0 <= n % 10 <= 9);
    assert(b[i] == 48 + n / 10 && b[i + 1] == 48 + n % 10);
}

/// Whether there is such a day and such a time of day.
pub open spec fn on_calendar(y: int, m: int, d: int, h: int, min: int, s: int) -> bool {
    &&& 1 <= m <= 12
    &&& 1 <= d <= (if m == 2 {
        if y % 4 == 0 && (y % 100 != 0 || y % 400 == 0) {
            29int
        } else {
            28
        }
    } else if m == 4 || m == 6 || m == 9 || m == 11 {
        30
    } else {
        31
    })
    &&& 0 <= h < 24
    &&& 0 <= min < 60
    &&& 0 <= s < 60
}

/// A time with a year of two digits is in the years from 1950 to 2049. One that is on the
/// calendar is read as the seconds to it, and one that is not is refused.
pub proof fn law_short_time(y: int, m: int, d: int, h: int, min: int, s: int)
    requires
        1950 <= y <= 2049,
        0 <= m < 100,
        0 <= d < 100,
        0 <= h < 100,
        0 <= min < 100,
        0 <= s < 100,
    ensures
        x509_time(
            23,
            two_digits(y % 100) + two_digits(m) + two_digits(d) + two_digits(h) + two_digits(min) + two_digits(s)
                + seq![90u8],
        ) == if on_calendar(y, m, d, h, min, s) {
            Some(civil_seconds(y, m, d, h, min, s))
        } else {
            None
        },
{
    let b = two_digits(y % 100) + two_digits(m) + two_digits(d) + two_digits(h) + two_digits(min) + two_digits(s)
        + seq![90u8];
    assert(b.len() == 13 && b[12] == 90);
    lemma_pair(b, 0, y % 100);
    lemma_pair(b, 2, m);
    lemma_pair(b, 4, d);
    lemma_pair(b, 6, h);
    lemma_pair(b, 8, min);
    lemma_pair(b, 10, s);
    assert(digits(b, 12)) by {
        assert forall|i: int| 0 <= i < 12 implies is_digit(#[trigger] b[i]) by {
            assert(i == 0 || i == 1 || i == 2 || i == 3 || i == 4 || i == 5 || i == 6 || i == 7 || i == 8 || i == 9 || i
                == 10 || i == 11);
        }
    }
    let yy = y % 100;
    assert((if yy < 50 { 2000 + yy } else { 1900 + yy }) == y);
}

/// A time with a year of four digits is in the years from 2050 on.
pub proof fn law_long_time(y: int, m: int, d: int, h: int, min: int, s: int)
    requires
        0 <= y <= 9999,
        0 <= m < 100,
        0 <= d < 100,
        0 <= h < 100,
        0 <= min < 100,
        0 <= s < 100,
    ensures
        x509_time(
            24,
            two_digits(y / 100) + two_digits(y % 100) + two_digits(m) + two_digits(d) + two_digits(h) + two_digits(min)
                + two_digits(s) + seq![90u8],
        ) == if y >= 2050 && on_calendar(y, m, d, h, min, s) {
            Some(civil_seconds(y, m, d, h, min, s))
        } else {
            None
        },
{
    let b = two_digits(y / 100) + two_digits(y % 100) + two_digits(m) + two_digits(d) + two_digits(h) + two_digits(min)
        + two_digits(s) + seq![90u8];
    assert(b.len() == 15 && b[14] == 90);
    lemma_pair(b, 0, y / 100);
    lemma_pair(b, 2, y % 100);
    lemma_pair(b, 4, m);
    lemma_pair(b, 6, d);
    lemma_pair(b, 8, h);
    lemma_pair(b, 10, min);
    lemma_pair(b, 12, s);
    assert(digits(b, 14)) by {
        assert forall|i: int| 0 <= i < 14 implies is_digit(#[trigger] b[i]) by {
            assert(i == 0 || i == 1 || i == 2 || i == 3 || i == 4 || i == 5 || i == 6 || i == 7 || i == 8 || i == 9 || i
                == 10 || i == 11 || i == 12 || i == 13);
        }
    }
    assert(two(b, 0) * 100 + two(b, 2) == y);
}

/// The time of day counts on from midnight.
pub proof fn law_seconds_of_a_day(y: int, m: int, d: int, h: int, min: int, s: int)
    ensures
        civil_seconds(y, m, d, h, min, s) == civil_seconds(y, m, d, 0, 0, 0) + h * 3600 + min * 60 + s,
{
}

} // verus!
