//! When the words of names are the same.

use vstd::prelude::*;

use crate::identity::cert::dn::profile::{all_ascii, ascii_folded, ascii_lower, prepared, text};
use crate::identity::cert::dn::{comparable, is_printable, AttributeView, Comparable, DOMAIN_COMPONENT_OID};
use crate::identity::cert::ext::scope::is_alphanumeric;
use crate::identity::laws::{alike, small};

verus! {

/// Whether characters are printed ones of ASCII without spaces.
pub open spec fn plain_word(s: Seq<char>) -> bool {
    forall|i: int| 0 <= i < s.len() ==> '!' <= #[trigger] s[i] <= '~'
}

/// Whether two words are spelled alike, but for the case of letters.
pub open spec fn same_word(s: Seq<char>, t: Seq<char>) -> bool {
    s.len() == t.len() && forall|i: int|
        0 <= i < s.len() ==> (if 'A' <= #[trigger] s[i] <= 'Z' {
            s[i] as int + 32
        } else {
            s[i] as int
        }) == (if 'A' <= t[i] <= 'Z' {
            t[i] as int + 32
        } else {
            t[i] as int
        })
}

proof fn lemma_word_folded(s: Seq<char>)
    requires
        plain_word(s),
    ensures
        ascii_folded(s).len() == s.len(),
        forall|i: int| 0 <= i < s.len() ==> #[trigger] ascii_folded(s)[i] == ascii_lower(s[i]),
    decreases s.len(),
{
    if s.len() > 0 {
        let t = s.drop_last();
        assert forall|i: int| 0 <= i < t.len() implies '!' <= #[trigger] t[i] <= '~' by {
            assert(t[i] == s[i]);
        }
        lemma_word_folded(t);
        assert('!' <= s[s.len() - 1] <= '~');
        assert forall|i: int| 0 <= i < s.len() implies #[trigger] ascii_folded(s)[i] == ascii_lower(s[i]) by {
            if i < t.len() {
                assert(ascii_folded(s)[i] == ascii_folded(t)[i]);
                assert(t[i] == s[i]);
            }
        }
    }
}

proof fn lemma_word_text(u: Seq<char>, n: nat)
    requires
        n <= u.len(),
        forall|i: int| 0 <= i < u.len() ==> #[trigger] u[i] != ' ',
    ensures
        text(u, n) == u.take(n as int),
    decreases n,
{
    if n > 0 {
        lemma_word_text(u, (n - 1) as nat);
        assert(u[n - 1] != ' ');
        if n >= 2 {
            assert(u[n - 2] != ' ');
        }
        assert(u.take(n as int) =~= u.take(n - 1).push(u[n - 1]));
    } else {
        assert(u.take(0) =~= Seq::empty());
    }
}

proof fn lemma_word_prepared(s: Seq<char>)
    requires
        plain_word(s),
        s.len() > 0,
    ensures
        prepared(s) == seq![' '] + ascii_folded(s) + seq![' '],
{
    assert(all_ascii(s)) by {
        assert forall|i: int| 0 <= i < s.len() implies #[trigger] s[i] <= '\u{7f}' by {}
    }
    let u = ascii_folded(s);
    lemma_word_folded(s);
    assert forall|i: int| 0 <= i < u.len() implies #[trigger] u[i] != ' ' by {
        assert('!' <= s[i] <= '~');
        assert(u[i] == ascii_lower(s[i]));
    }
    lemma_word_text(u, u.len());
    assert(u.take(u.len() as int) =~= u);
}

/// Words in names are the same where they are spelled alike, but for the case of letters,
/// and only there.
pub proof fn law_words_are_told_apart(s: Seq<char>, t: Seq<char>)
    requires
        plain_word(s),
        plain_word(t),
        s.len() > 0,
        t.len() > 0,
    ensures
        prepared(s) == prepared(t) <==> same_word(s, t),
{
    lemma_word_prepared(s);
    lemma_word_prepared(t);
    lemma_word_folded(s);
    lemma_word_folded(t);
    let a = ascii_folded(s);
    let b = ascii_folded(t);
    if prepared(s) == prepared(t) {
        assert(prepared(s).len() == s.len() + 2 && prepared(t).len() == t.len() + 2);
        assert forall|i: int| 0 <= i < s.len() implies ascii_lower(#[trigger] s[i]) == ascii_lower(t[i]) by {
            assert(prepared(s)[i + 1] == a[i] && prepared(t)[i + 1] == b[i]);
        }
        assert(same_word(s, t));
    }
    if same_word(s, t) {
        assert forall|i: int| 0 <= i < a.len() implies #[trigger] a[i] == b[i] by {
            assert('!' <= s[i] <= '~');
            assert('!' <= t[i] <= '~');
            assert(a[i] == ascii_lower(s[i]) && b[i] == ascii_lower(t[i]));
        }
        assert(a =~= b);
    }
}

/// The characters of ASCII bytes.
pub open spec fn word_of(x: Seq<u8>) -> Seq<char> {
    Seq::new(x.len(), |i: int| x[i] as char)
}

proof fn lemma_word_of(x: Seq<u8>, oid: Seq<u8>)
    requires
        oid.len() == 3,
        oid[0] == 0x55,
        oid[1] == 4,
        oid[2] == 3 || oid[2] == 6 || oid[2] == 7 || oid[2] == 8 || oid[2] == 10 || oid[2] == 11,
        forall|i: int| 0 <= i < x.len() ==> is_alphanumeric(#[trigger] x[i]),
    ensures
        comparable(AttributeView { oid, tag: 0x13, contents: x }) == Comparable::Directory(oid, prepared(word_of(x))),
        plain_word(word_of(x)),
        word_of(x).len() == x.len(),
{
    let a = AttributeView { oid, tag: 0x13, contents: x };
    assert forall|i: int| 0 <= i < x.len() implies is_printable(#[trigger] x[i]) by {
        assert(is_alphanumeric(x[i]));
    }
    assert forall|i: int| 0 <= i < word_of(x).len() implies '!' <= #[trigger] word_of(x)[i] <= '~' by {
        assert(is_alphanumeric(x[i]));
    }
    assert(a.oid.len() != DOMAIN_COMPONENT_OID@.len());
}

/// Attributes of a directory, such as the common name, the country or the organization,
/// are the same where their words are spelled alike, and only there.
pub proof fn law_directory_words(oid: Seq<u8>, x: Seq<u8>, y: Seq<u8>)
    requires
        oid.len() == 3,
        oid[0] == 0x55,
        oid[1] == 4,
        oid[2] == 3 || oid[2] == 6 || oid[2] == 7 || oid[2] == 8 || oid[2] == 10 || oid[2] == 11,
        x.len() > 0,
        y.len() > 0,
        forall|i: int| 0 <= i < x.len() ==> is_alphanumeric(#[trigger] x[i]),
        forall|i: int| 0 <= i < y.len() ==> is_alphanumeric(#[trigger] y[i]),
    ensures
        comparable(AttributeView { oid, tag: 0x13, contents: x }) == comparable(
            AttributeView { oid, tag: 0x13, contents: y },
        ) <==> alike(x, y),
{
    lemma_word_of(x, oid);
    lemma_word_of(y, oid);
    let s = word_of(x);
    let t = word_of(y);
    law_words_are_told_apart(s, t);
    if same_word(s, t) {
        assert forall|i: int| 0 <= i < x.len() implies small(#[trigger] x[i]) == small(y[i]) by {
            assert(s[i] == x[i] as char && t[i] == y[i] as char);
        }
    }
    if alike(x, y) {
        assert forall|i: int| 0 <= i < s.len() implies (if 'A' <= #[trigger] s[i] <= 'Z' {
            s[i] as int + 32
        } else {
            s[i] as int
        }) == (if 'A' <= t[i] <= 'Z' {
            t[i] as int + 32
        } else {
            t[i] as int
        }) by {
            assert(small(x[i]) == small(y[i]));
        }
    }
}

/// Any other attribute is the same as one of the same type, form and bytes, and as no
/// other.
pub proof fn law_other_attributes(a: AttributeView, b: AttributeView)
    requires
        a.oid.len() != 3 && a.oid.len() != 10,
        b.oid.len() != 3 && b.oid.len() != 10,
    ensures
        comparable(a) == comparable(b) <==> a.oid == b.oid && a.tag == b.tag && a.contents == b.contents,
{
    assert(DOMAIN_COMPONENT_OID@.len() == 10);
}

} // verus!
