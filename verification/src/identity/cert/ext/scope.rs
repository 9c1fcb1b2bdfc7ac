//! Names that a certificate holds beside its subject, and constraints on them.

use vstd::prelude::*;
use vstd::slice::slice_subrange;
use vstd::std_specs::cmp::PartialEqSpecImpl;

use crate::codec::bytes_eq;
use crate::identity::asn1::{
    after_optional, after_tlv, der_optional, der_tagged, der_tlv, der_whole, lemma_tlv_consumes, read_whole,
    DerError, Reader, Tag, Tlv,
};
use crate::identity::cert::dn::lower_byte;
use crate::identity::cert::ext::{outcome, MAX_EXTENSION_VALUES};
use crate::identity::cert::{lift, Error};

verus! {

/// A name: a DNS name, an IP address, or another form with its tag.
pub enum GeneralNameView {
    Dns(Seq<u8>),
    Ip(Seq<u8>),
    Other(u8, Seq<u8>),
}

/// The name in an element, where its tag is that of a name.
pub open spec fn general_name(tag: u8, contents: Seq<u8>) -> Result<GeneralNameView, Error> {
    if tag == 0x82 {
        Ok(GeneralNameView::Dns(contents))
    } else if tag == 0x87 {
        Ok(GeneralNameView::Ip(contents))
    } else if tag == 0xa0 || tag == 0x81 || tag == 0xa3 || tag == 0xa4 || tag == 0xa5 || tag == 0x86 || tag
        == 0x88 {
        Ok(GeneralNameView::Other(tag, contents))
    } else {
        Err(Error::BadName)
    }
}

/// The name at the front of `s`.
pub open spec fn general_name_at(s: Seq<u8>) -> Result<GeneralNameView, Error> {
    match der_tlv(s) {
        Ok((tag, contents, _)) => general_name(tag, contents),
        Err(e) => Err(Error::Der(e)),
    }
}

/// Whether every byte is ASCII and none is zero.
pub open spec fn plain_ascii(s: Seq<u8>) -> bool {
    forall|i: int| 0 <= i < s.len() ==> 0 < #[trigger] s[i] < 0x80
}

/// Whether a byte is an ASCII letter or digit.
pub open spec fn is_alphanumeric(b: u8) -> bool {
    (0x30 <= b <= 0x39) || (0x41 <= b <= 0x5a) || (0x61 <= b <= 0x7a)
}

/// Whether there is a dot among the `n` bytes from `i` on.
pub open spec fn has_dot(s: Seq<u8>, i: int, n: int) -> bool {
    exists|j: int| i <= j < i + n && j < s.len() && #[trigger] s[j] == 0x2e
}

/// Whether bytes are labels of letters, digits and inner hyphens, none empty or
/// longer than 63 bytes, with dots between them, of at most 253 bytes in all.
pub open spec fn dns_labels(s: Seq<u8>) -> bool {
    &&& 0 < s.len() <= 253
    &&& is_alphanumeric(s[0])
    &&& is_alphanumeric(s.last())
    &&& forall|i: int|
        0 <= i < s.len() ==> is_alphanumeric(#[trigger] s[i]) || s[i] == 0x2d || s[i] == 0x2e
    &&& forall|i: int|
        0 < i < s.len() - 1 && #[trigger] s[i] == 0x2e ==> is_alphanumeric(s[i - 1]) && is_alphanumeric(
            s[i + 1],
        )
    &&& forall|i: int| #![trigger has_dot(s, i, 64)] 0 <= i && i + 64 <= s.len() ==> has_dot(s, i, 64)
}

/// A constraint's domain: without the dot in front.
pub open spec fn without_dot(s: Seq<u8>) -> Seq<u8> {
    if s.len() > 0 && s[0] == 0x2e {
        s.skip(1)
    } else {
        s
    }
}

/// Whether a byte is ones and then zeros.
pub open spec fn is_mask_byte(b: u8) -> bool {
    b == 0 || b == 0x80 || b == 0xc0 || b == 0xe0 || b == 0xf0 || b == 0xf8 || b == 0xfc || b == 0xfe || b
        == 0xff
}

/// Whether bits are ones and then zeros.
pub open spec fn is_mask(s: Seq<u8>) -> bool {
    &&& forall|i: int| 0 <= i < s.len() ==> is_mask_byte(#[trigger] s[i])
    &&& forall|i: int, j: int|
        0 <= i < j < s.len() ==> #[trigger] s[i] == 0xff || #[trigger] s[j] == 0
}

/// Whether a name is well formed, as a name or as a constraint on names.
pub open spec fn valid_name(n: GeneralNameView, constraint: bool) -> bool {
    match n {
        GeneralNameView::Dns(v) => {
            &&& v.len() > 0
            &&& plain_ascii(v)
            &&& constraint ==> dns_labels(without_dot(v))
        },
        GeneralNameView::Ip(v) => if constraint {
            (v.len() == 8 || v.len() == 32) && is_mask(v.skip(v.len() as int / 2))
        } else {
            v.len() == 4 || v.len() == 16
        },
        GeneralNameView::Other(tag, v) => (tag == 0x81 || tag == 0x86) ==> plain_ascii(v),
    }
}

/// Bytes equal but for the case of ASCII letters.
pub open spec fn same_ascii(a: Seq<u8>, b: Seq<u8>) -> bool {
    &&& a.len() == b.len()
    &&& forall|i: int| 0 <= i < a.len() ==> lower_byte(#[trigger] a[i]) == lower_byte(b[i])
}

/// Whether a name is a domain with at least one label in front.
pub open spec fn is_subdomain(name: Seq<u8>, domain: Seq<u8>) -> bool {
    let n = name.len() - domain.len();
    &&& n > 0
    &&& name[n - 1] == 0x2e
    &&& same_ascii(name.skip(n), domain)
}

/// Whether a DNS name lies in a subtree: it is the constraint's domain or below
/// it, or only below it where the constraint starts with a dot.
pub open spec fn in_dns_subtree(name: Seq<u8>, constraint: Seq<u8>) -> bool {
    if constraint.len() > 0 && constraint[0] == 0x2e {
        is_subdomain(name, constraint.skip(1))
    } else {
        same_ascii(name, constraint) || is_subdomain(name, constraint)
    }
}

/// Whether an address lies in a network: it agrees with the network wherever the
/// mask that follows the network has ones.
pub open spec fn in_ip_subtree(address: Seq<u8>, network_and_mask: Seq<u8>) -> bool {
    let n = address.len();
    &&& network_and_mask.len() == n * 2
    &&& forall|i: int|
        0 <= i < n ==> (#[trigger] address[i]) & network_and_mask[n + i] == network_and_mask[i]
            & network_and_mask[n + i]
}

/// A name below a name in a subtree is in the subtree.
pub proof fn law_subtree_closed(name: Seq<u8>, constraint: Seq<u8>, label: Seq<u8>)
    requires
        in_dns_subtree(name, constraint),
    ensures
        in_dns_subtree(label + seq![0x2eu8] + name, constraint),
{
    let full = label + seq![0x2eu8] + name;
    let domain = without_dot(constraint);
    let n = full.len() - domain.len();
    let m = name.len() - domain.len();
    assert(same_ascii(name.skip(m), domain)) by {
        if same_ascii(name, domain) {
            assert(name.skip(0) =~= name);
        }
    }
    assert(full.skip(n) =~= name.skip(m));
    if m == 0 {
        assert(full[n - 1] == 0x2e);
    } else {
        assert(full[n - 1] == name[m - 1]);
    }
}

/// Under a mask of zeros every address of the right length is in the network.
pub proof fn law_zero_mask_matches_all(address: Seq<u8>, network: Seq<u8>)
    requires
        address.len() == network.len(),
    ensures
        in_ip_subtree(address, network + Seq::new(network.len(), |i: int| 0u8)),
{
    let nm = network + Seq::new(network.len(), |i: int| 0u8);
    assert forall|i: int| 0 <= i < address.len() implies (#[trigger] address[i]) & nm[address.len() + i]
        == nm[i] & nm[address.len() + i] by {
        let a = address[i];
        let b = nm[i];
        assert(a & 0u8 == b & 0u8) by (bit_vector);
    }
}

/// A name in a certificate.
#[derive(Debug, Clone, Copy)]
pub enum GeneralName<'a> {
    DnsName(&'a [u8]),
    IpAddress(&'a [u8]),
    Other { tag: u8, value: &'a [u8] },
}

impl<'a> View for GeneralName<'a> {
    type V = GeneralNameView;

    open spec fn view(&self) -> GeneralNameView {
        match self {
            GeneralName::DnsName(v) => GeneralNameView::Dns(v@),
            GeneralName::IpAddress(v) => GeneralNameView::Ip(v@),
            GeneralName::Other { tag, value } => GeneralNameView::Other(*tag, value@),
        }
    }
}

impl<'a> PartialEq for GeneralName<'a> {
    fn eq(&self, other: &Self) -> (r: bool) {
        match (self, other) {
            (GeneralName::DnsName(a), GeneralName::DnsName(b)) => bytes_eq(a, b),
            (GeneralName::IpAddress(a), GeneralName::IpAddress(b)) => bytes_eq(a, b),
            (GeneralName::Other { tag: t, value: v }, GeneralName::Other { tag, value }) => *t == *tag
                && bytes_eq(v, value),
            _ => false,
        }
    }
}

impl<'a> PartialEqSpecImpl for GeneralName<'a> {
    open spec fn obeys_eq_spec() -> bool {
        true
    }

    open spec fn eq_spec(&self, other: &Self) -> bool {
        self@ == other@
    }
}

impl<'a> Eq for GeneralName<'a> {

}

/// What counts of a list of names.
pub open spec fn name_views(l: Seq<GeneralName<'_>>) -> Seq<GeneralNameView> {
    l.map_values(|n: GeneralName<'_>| n@)
}

impl<'a> GeneralName<'a> {
    fn from_tlv(tlv: Tlv<'a>) -> (r: Result<Self, Error>)
        ensures
            match general_name(tlv.tag.0, tlv.contents@) {
                Ok(n) => r is Ok && r->Ok_0@ == n,
                Err(e) => r is Err && r->Err_0 == e,
            },
    {
        match tlv.tag.0 {
            0x82 => Ok(Self::DnsName(tlv.contents)),
            0x87 => Ok(Self::IpAddress(tlv.contents)),
            0xa0 | 0x81 | 0xa3 | 0xa4 | 0xa5 | 0x86 | 0x88 => Ok(
                Self::Other { tag: tlv.tag.0, value: tlv.contents },
            ),
            _ => Err(Error::BadName),
        }
    }

    /// Whether a DNS name lies in a subtree.
    pub fn dns_in_subtree(name: &[u8], constraint: &[u8]) -> (r: bool)
        ensures
            r == in_dns_subtree(name@, constraint@),
    {
        let subdomains_only = constraint.len() > 0 && constraint[0] == 0x2e;
        let domain = if subdomains_only {
            let d = slice_subrange(constraint, 1, constraint.len());
            assert(d@ =~= constraint@.skip(1));
            d
        } else {
            constraint
        };
        if !subdomains_only && ascii_case_eq(name, domain) {
            return true;
        }
        if name.len() <= domain.len() {
            return false;
        }
        let n: usize = name.len() - domain.len();
        let tail = slice_subrange(name, n, name.len());
        assert(tail@ =~= name@.skip(n as int));
        name[n - 1] == 0x2e && ascii_case_eq(tail, domain)
    }

    /// Whether an address lies in a network.
    pub fn ip_in_subtree(address: &[u8], network_and_mask: &[u8]) -> (r: bool)
        ensures
            r == in_ip_subtree(address@, network_and_mask@),
    {
        let n: usize = address.len();
        if network_and_mask.len() % 2 != 0 || network_and_mask.len() / 2 != n {
            return false;
        }
        let mut i: usize = 0;
        while i < n
            invariant
                i <= n,
                n == address@.len(),
                network_and_mask.len() == n * 2,
                forall|j: int|
                    0 <= j < i ==> (#[trigger] address@[j]) & network_and_mask@[n + j]
                        == network_and_mask@[j] & network_and_mask@[n + j],
            decreases n - i,
        {
            let mask: u8 = network_and_mask[n + i];
            if address[i] & mask != network_and_mask[i] & mask {
                assert(address@[i as int] & network_and_mask@[n + i as int] != network_and_mask@[i as int]
                    & network_and_mask@[n + i as int]);
                return false;
            }
            i = i + 1;
        }
        true
    }

    /// The names in a subject alternative name value, of any form, at most as many
    /// as a list may have, and possibly none.
    pub fn parse_alt_names(value: &'a [u8]) -> (r: Result<Vec<Self>, Error>)
        ensures
            match der_whole(value@, Tag::SEQUENCE) {
                Err(e) => r matches Err(d) && d == Error::Der(e),
                Ok(c) => match alt_names(c, 0) {
                    Ok(l) => r matches Ok(v) && name_views(v@) == l,
                    Err(e) => r matches Err(d) && d == e,
                },
            },
    {
        let inner = lift(read_whole(value, Tag(Tag::SEQUENCE)))?;
        let mut reader = Reader::new(inner);
        let mut out: Vec<Self> = Vec::new();
        let ghost all = alt_names(inner@, 0);
        proof {
            assert(name_views(out@) =~= Seq::empty());
            if let Ok(l) = all {
                assert(l =~= name_views(out@) + l);
            }
        }
        while !reader.is_empty()
            invariant
                out.len() <= MAX_EXTENSION_VALUES,
                der_whole(value@, Tag::SEQUENCE) == Ok::<Seq<u8>, DerError>(inner@),
                all == alt_names(inner@, 0),
                all == match alt_names(reader@, out@.len()) {
                    Ok(l) => Ok::<Seq<GeneralNameView>, Error>(name_views(out@) + l),
                    Err(e) => Err(e),
                },
            decreases reader@.len(),
        {
            let ghost before = name_views(out@);
            proof {
                lemma_tlv_consumes(reader@);
            }
            let tlv = lift(reader.read_tlv())?;
            if out.len() >= MAX_EXTENSION_VALUES {
                return Err(Error::TooManyEntries);
            }
            let name = match tlv.tag.0 {
                0x82 => Self::DnsName(tlv.contents),
                0x87 => Self::IpAddress(tlv.contents),
                _ => Self::Other { tag: tlv.tag.0, value: tlv.contents },
            };
            out.push(name);
            proof {
                assert(name_views(out@) =~= before.push(name@));
                if let Ok(l) = alt_names(reader@, out@.len()) {
                    assert(before + (seq![name@] + l) =~= name_views(out@) + l);
                }
            }
        }
        assert(name_views(out@) + Seq::empty() =~= name_views(out@));
        Ok(out)
    }
}

/// An element of any form as a name.
pub open spec fn any_name(tag: u8, contents: Seq<u8>) -> GeneralNameView {
    if tag == 0x82 {
        GeneralNameView::Dns(contents)
    } else if tag == 0x87 {
        GeneralNameView::Ip(contents)
    } else {
        GeneralNameView::Other(tag, contents)
    }
}

/// The elements in `s` as names, before which `n` were read.
pub open spec fn alt_names(s: Seq<u8>, n: nat) -> Result<Seq<GeneralNameView>, Error>
    decreases s.len(),
{
    if s.len() == 0 {
        Ok(Seq::empty())
    } else {
        match der_tlv(s) {
            Err(e) => Err(Error::Der(e)),
            Ok((tag, contents, rest)) => if n >= MAX_EXTENSION_VALUES {
                Err(Error::TooManyEntries)
            } else {
                proof {
                    lemma_tlv_consumes(s);
                }
                match alt_names(after_tlv(s), n + 1) {
                    Ok(l) => Ok(seq![any_name(tag, contents)] + l),
                    Err(e) => Err(e),
                }
            },
        }
    }
}

/// The names in `s`, before which `n` were read: each well formed, no more than
/// there may be, and at least one.
pub open spec fn names(s: Seq<u8>, n: nat) -> Result<Seq<GeneralNameView>, Error>
    decreases s.len(),
{
    if s.len() == 0 {
        if n == 0 {
            Err(Error::BadName)
        } else {
            Ok(Seq::empty())
        }
    } else {
        match general_name_at(s) {
            Err(e) => Err(e),
            Ok(name) => if !valid_name(name, false) {
                Err(Error::BadName)
            } else if n >= MAX_EXTENSION_VALUES {
                Err(Error::TooManyEntries)
            } else {
                proof {
                    lemma_tlv_consumes(s);
                }
                match names(after_tlv(s), n + 1) {
                    Ok(l) => Ok(seq![name] + l),
                    Err(e) => Err(e),
                }
            },
        }
    }
}

/// The names in a subject alternative name value.
pub open spec fn general_names(value: Seq<u8>) -> Result<Seq<GeneralNameView>, Error> {
    match der_whole(value, Tag::SEQUENCE) {
        Err(e) => Err(Error::Der(e)),
        Ok(c) => names(c, 0),
    }
}

/// A list of names.
#[derive(Debug, Clone, Copy)]
pub struct GeneralNames<'a> {
    contents: &'a [u8],
}

impl<'a> View for GeneralNames<'a> {
    type V = Seq<u8>;

    closed spec fn view(&self) -> Seq<u8> {
        self.contents@
    }
}

impl<'a> GeneralNames<'a> {
    /// Reads a subject alternative name value. What is kept is the contents, in
    /// which every name is well formed.
    pub fn parse(value: &'a [u8]) -> (r: Result<Self, Error>)
        ensures
            match general_names(value@) {
                Ok(l) => r is Ok && names(r->Ok_0@, 0) == Ok::<Seq<GeneralNameView>, Error>(l),
                Err(e) => r matches Err(d) && d == e,
            },
            r is Ok ==> der_whole(value@, Tag::SEQUENCE) == Ok::<Seq<u8>, DerError>(r->Ok_0@),
    {
        let contents = lift(read_whole(value, Tag(Tag::SEQUENCE)))?;
        let mut reader = Reader::new(contents);
        let mut count: usize = 0;
        while !reader.is_empty()
            invariant
                count <= MAX_EXTENSION_VALUES,
                der_whole(value@, Tag::SEQUENCE) == Ok::<Seq<u8>, DerError>(contents@),
                outcome(names(contents@, 0)) == outcome(names(reader@, count as nat)),
            decreases reader@.len(),
        {
            proof {
                lemma_tlv_consumes(reader@);
            }
            let tlv = lift(reader.read_tlv())?;
            let name = GeneralName::from_tlv(tlv)?;
            validate_general_name(name, false)?;
            if count >= MAX_EXTENSION_VALUES {
                return Err(Error::TooManyEntries);
            }
            count = count + 1;
        }
        if count == 0 {
            return Err(Error::BadName);
        }
        Ok(Self { contents })
    }

    /// The list in contents that were read before.
    pub fn from_validated_contents(contents: &'a [u8]) -> (r: Self)
        ensures
            r@ == contents@,
    {
        Self { contents }
    }

    /// The contents of the list.
    pub fn contents(self) -> (r: &'a [u8])
        ensures
            r@ == self@,
    {
        self.contents
    }

    /// An iteration over the names.
    pub fn iter(self) -> (r: GeneralNameIter<'a>)
        ensures
            r@ == self@,
    {
        GeneralNameIter { reader: Reader::new(self.contents) }
    }
}

/// An iteration over names; its view is what is unread.
pub struct GeneralNameIter<'a> {
    reader: Reader<'a>,
}

impl<'a> View for GeneralNameIter<'a> {
    type V = Seq<u8>;

    closed spec fn view(&self) -> Seq<u8> {
        self.reader@
    }
}

impl<'a> GeneralNameIter<'a> {
    /// The next name.
    pub fn next(&mut self) -> (r: Option<Result<GeneralName<'a>, Error>>)
        ensures
            old(self)@.len() == 0 ==> r is None && final(self)@ == old(self)@,
            old(self)@.len() > 0 ==> final(self)@ == after_tlv(old(self)@) && match general_name_at(
                old(self)@,
            ) {
                Ok(n) => r matches Some(Ok(name)) && name@ == n,
                Err(e) => r matches Some(Err(d)) && d == e,
            },
    {
        if self.reader.is_empty() {
            return None;
        }
        match lift(self.reader.read_tlv()) {
            Ok(tlv) => Some(GeneralName::from_tlv(tlv)),
            Err(e) => Some(Err(e)),
        }
    }
}

fn validate_general_name(name: GeneralName<'_>, constraint: bool) -> (r: Result<(), Error>)
    ensures
        valid_name(name@, constraint) ==> r == Ok::<(), Error>(()),
        !valid_name(name@, constraint) ==> r == Err::<(), Error>(Error::BadName),
{
    let ok = match name {
        GeneralName::DnsName(v) => v.len() > 0 && is_plain_ascii(v) && (!constraint || valid_dns_constraint(
            v,
        )),
        GeneralName::IpAddress(v) => if constraint {
            (v.len() == 8 || v.len() == 32) && contiguous_ip_mask(v)
        } else {
            v.len() == 4 || v.len() == 16
        },
        GeneralName::Other { tag, value } => (tag != 0x81 && tag != 0x86) || is_plain_ascii(value),
    };
    if ok {
        Ok(())
    } else {
        Err(Error::BadName)
    }
}

fn is_plain_ascii(s: &[u8]) -> (r: bool)
    ensures
        r == plain_ascii(s@),
{
    let mut i: usize = 0;
    while i < s.len()
        invariant
            i <= s.len(),
            forall|j: int| 0 <= j < i ==> 0 < #[trigger] s@[j] < 0x80,
        decreases s.len() - i,
    {
        if s[i] == 0 || s[i] >= 0x80 {
            assert(!(0 < s@[i as int] < 0x80));
            return false;
        }
        i = i + 1;
    }
    true
}

fn alphanumeric(b: u8) -> (r: bool)
    ensures
        r == is_alphanumeric(b),
{
    (b >= 0x30 && b <= 0x39) || (b >= 0x41 && b <= 0x5a) || (b >= 0x61 && b <= 0x7a)
}

fn valid_dns_constraint(value: &[u8]) -> (r: bool)
    ensures
        r == dns_labels(without_dot(value@)),
{
    if value.len() > 0 && value[0] == 0x2e {
        let d = slice_subrange(value, 1, value.len());
        assert(d@ =~= value@.skip(1));
        valid_dns_labels(d)
    } else {
        valid_dns_labels(value)
    }
}

/// Whether bytes are well-formed DNS labels with dots between them.
pub(crate) fn valid_dns_labels(s: &[u8]) -> (r: bool)
    ensures
        r == dns_labels(s@),
{
    let n: usize = s.len();
    if n == 0 || n > 253 || !alphanumeric(s[0]) || !alphanumeric(s[n - 1]) {
        return false;
    }
    let mut run: usize = 0;
    let mut i: usize = 0;
    while i < n
        invariant
            i <= n,
            n == s@.len(),
            0 < n <= 253,
            is_alphanumeric(s@[0]),
            is_alphanumeric(s@.last()),
            run <= 63,
            run <= i,
            forall|j: int| i - run <= j < i ==> #[trigger] s@[j] != 0x2e,
            run < i ==> s@[i - run - 1] == 0x2e,
            forall|j: int|
                0 <= j < i ==> is_alphanumeric(#[trigger] s@[j]) || s@[j] == 0x2d || s@[j] == 0x2e,
            forall|j: int|
                0 < j < n - 1 && j < i && #[trigger] s@[j] == 0x2e ==> is_alphanumeric(s@[j - 1])
                    && is_alphanumeric(s@[j + 1]),
            forall|j: int|
                #![trigger has_dot(s@, j, 64)]
                0 <= j && j + 64 <= i ==> has_dot(s@, j, 64),
        decreases n - i,
    {
        let b: u8 = s[i];
        if b == 0x2e {
            assert(0 < i < n - 1) by {
                assert(s@.last() == s@[n - 1]);
            }
            if !alphanumeric(s[i - 1]) || !alphanumeric(s[i + 1]) {
                assert(s@[i as int] == 0x2e);
                return false;
            }
            run = 0;
        } else {
            if !alphanumeric(b) && b != 0x2d {
                assert(!is_alphanumeric(s@[i as int]));
                return false;
            }
            if run == 63 {
                proof {
                    let k = i - 63;
                    if has_dot(s@, k, 64) {
                        let j = choose|j: int| k <= j < k + 64 && j < s@.len() && #[trigger] s@[j] == 0x2e;
                        assert(s@[j] == 0x2e);
                        assert(j == i || i - run <= j < i);
                    }
                    assert(!has_dot(s@, k, 64));
                }
                return false;
            }
            run = run + 1;
        }
        let ghost old_i = i;
        i = i + 1;
        proof {
            assert forall|j: int|
                #![trigger has_dot(s@, j, 64)]
                0 <= j && j + 64 <= i implies has_dot(s@, j, 64) by {
                if j + 64 == i {
                    assert(s@[i - run - 1] == 0x2e);
                }
            }
        }
    }
    true
}

fn mask_byte(b: u8) -> (r: bool)
    ensures
        r == is_mask_byte(b),
{
    b == 0 || b == 0x80 || b == 0xc0 || b == 0xe0 || b == 0xf0 || b == 0xf8 || b == 0xfc || b == 0xfe || b
        == 0xff
}

fn contiguous_ip_mask(network_and_mask: &[u8]) -> (r: bool)
    ensures
        r == is_mask(network_and_mask@.skip(network_and_mask@.len() as int / 2)),
{
    let half: usize = network_and_mask.len() / 2;
    let mask = slice_subrange(network_and_mask, half, network_and_mask.len());
    assert(mask@ =~= network_and_mask@.skip(network_and_mask@.len() as int / 2));
    let mut zero_seen = false;
    let mut i: usize = 0;
    while i < mask.len()
        invariant
            i <= mask.len(),
            mask@ == network_and_mask@.skip(network_and_mask@.len() as int / 2),
            zero_seen == exists|j: int| 0 <= j < i && #[trigger] mask@[j] != 0xff,
            forall|j: int| 0 <= j < i ==> is_mask_byte(#[trigger] mask@[j]),
            forall|j: int, k: int|
                0 <= j < k < i ==> #[trigger] mask@[j] == 0xff || #[trigger] mask@[k] == 0,
        decreases mask.len() - i,
    {
        let b: u8 = mask[i];
        if !mask_byte(b) {
            assert(!is_mask_byte(mask@[i as int]));
            return false;
        }
        if zero_seen && b != 0 {
            proof {
                let j = choose|j: int| 0 <= j < i && #[trigger] mask@[j] != 0xff;
                assert(mask@[j] != 0xff && mask@[i as int] != 0);
            }
            return false;
        }
        if b != 0xff {
            assert(mask@[i as int] != 0xff);
            zero_seen = true;
        }
        i = i + 1;
    }
    true
}

fn lower(b: u8) -> (r: u8)
    ensures
        r == lower_byte(b),
{
    if b >= 0x41 && b <= 0x5a {
        b + 32
    } else {
        b
    }
}

/// Whether bytes are equal but for the case of ASCII letters.
pub(crate) fn ascii_case_eq(left: &[u8], right: &[u8]) -> (r: bool)
    ensures
        r == same_ascii(left@, right@),
{
    if left.len() != right.len() {
        return false;
    }
    let mut i: usize = 0;
    while i < left.len()
        invariant
            i <= left.len(),
            left@.len() == right@.len(),
            forall|j: int| 0 <= j < i ==> lower_byte(#[trigger] left@[j]) == lower_byte(right@[j]),
        decreases left.len() - i,
    {
        if lower(left[i]) != lower(right[i]) {
            assert(lower_byte(left@[i as int]) != lower_byte(right@[i as int]));
            return false;
        }
        i = i + 1;
    }
    true
}

/// The constraint at the front of `s`.
pub open spec fn subtree_at(s: Seq<u8>) -> Result<GeneralNameView, Error> {
    match der_tagged(s, Tag::SEQUENCE) {
        Err(e) => Err(Error::Der(e)),
        Ok(c) => match general_name_at(c) {
            Err(e) => Err(e),
            Ok(base) => if !valid_name(base, true) {
                Err(Error::BadName)
            } else if after_tlv(c).len() > 0 {
                Err(Error::Der(DerError::Trailing))
            } else {
                Ok(base)
            },
        },
    }
}

/// The constraints in `s`, before which `n` were read: no more than there may be,
/// and at least one.
pub open spec fn subtrees(s: Seq<u8>, n: nat) -> Result<Seq<GeneralNameView>, Error>
    decreases s.len(),
{
    if s.len() == 0 {
        if n == 0 {
            Err(Error::BadName)
        } else {
            Ok(Seq::empty())
        }
    } else {
        match subtree_at(s) {
            Err(e) => Err(e),
            Ok(base) => if n >= MAX_EXTENSION_VALUES {
                Err(Error::TooManyEntries)
            } else {
                proof {
                    lemma_tlv_consumes(s);
                }
                match subtrees(after_tlv(s), n + 1) {
                    Ok(l) => Ok(seq![base] + l),
                    Err(e) => Err(e),
                }
            },
        }
    }
}

/// Whether a constraint is on DNS names.
pub open spec fn on_dns(n: GeneralNameView) -> bool {
    n is Dns
}

/// Whether a constraint is on IP addresses.
pub open spec fn on_ip(n: GeneralNameView) -> bool {
    n is Ip
}

/// Whether a constraint is on names of another form.
pub open spec fn on_other(n: GeneralNameView) -> bool {
    n is Other
}

/// Whether a list has a constraint of a kind.
pub open spec fn has_kind(l: Seq<GeneralNameView>, kind: spec_fn(GeneralNameView) -> bool) -> bool {
    exists|i: int| 0 <= i < l.len() && kind(#[trigger] l[i])
}

/// Whether a DNS name lies in one of the subtrees.
pub open spec fn dns_match(l: Seq<GeneralNameView>, name: Seq<u8>) -> bool {
    has_kind(l, |n: GeneralNameView| n is Dns && in_dns_subtree(name, n->Dns_0))
}

/// Whether an address lies in one of the subtrees.
pub open spec fn ip_match(l: Seq<GeneralNameView>, address: Seq<u8>) -> bool {
    has_kind(l, |n: GeneralNameView| n is Ip && in_ip_subtree(address, n->Ip_0))
}

/// A list of constraints; its view is the constraints.
#[derive(Debug, Clone, Copy)]
pub struct Subtrees<'a> {
    contents: Option<&'a [u8]>,
    dns: bool,
    ip: bool,
    unsupported: bool,
    count: u8,
}

impl<'a> View for Subtrees<'a> {
    type V = Seq<GeneralNameView>;

    closed spec fn view(&self) -> Seq<GeneralNameView> {
        match self.contents {
            Some(c) => subtrees(c@, 0)->Ok_0,
            None => Seq::empty(),
        }
    }
}

impl<'a> Default for Subtrees<'a> {
    fn default() -> (r: Self)
        ensures
            r@ == Seq::<GeneralNameView>::empty(),
    {
        Self { contents: None, dns: false, ip: false, unsupported: false, count: 0 }
    }
}

impl<'a> Subtrees<'a> {
    #[verifier::type_invariant]
    spec fn valid(self) -> bool {
        &&& self.contents matches Some(c) ==> subtrees(c@, 0) is Ok
        &&& self.count == self@.len()
        &&& self.dns == has_kind(self@, |n: GeneralNameView| on_dns(n))
        &&& self.ip == has_kind(self@, |n: GeneralNameView| on_ip(n))
        &&& self.unsupported == has_kind(self@, |n: GeneralNameView| on_other(n))
    }

    /// Reads the contents of a list of subtrees.
    pub fn parse(contents: &'a [u8]) -> (r: Result<Self, Error>)
        ensures
            match subtrees(contents@, 0) {
                Ok(l) => r is Ok && r->Ok_0@ == l,
                Err(e) => r matches Err(d) && d == e,
            },
    {
        let mut reader = Reader::new(contents);
        let mut count: usize = 0;
        let mut dns = false;
        let mut ip = false;
        let mut unsupported = false;
        let ghost all = subtrees(contents@, 0);
        let ghost mut done = Seq::<GeneralNameView>::empty();
        proof {
            if let Ok(l) = all {
                assert(l =~= done + l);
            }
        }
        while !reader.is_empty()
            invariant
                count <= MAX_EXTENSION_VALUES,
                count == done.len(),
                all == subtrees(contents@, 0),
                all == match subtrees(reader@, done.len()) {
                    Ok(l) => Ok::<Seq<GeneralNameView>, Error>(done + l),
                    Err(e) => Err(e),
                },
                dns == has_kind(done, |n: GeneralNameView| on_dns(n)),
                ip == has_kind(done, |n: GeneralNameView| on_ip(n)),
                unsupported == has_kind(done, |n: GeneralNameView| on_other(n)),
            decreases reader@.len(),
        {
            let ghost before = done;
            proof {
                lemma_tlv_consumes(reader@);
            }
            let subtree = lift(reader.read_tagged(Tag(Tag::SEQUENCE)))?;
            let mut inner = Reader::new(subtree);
            let tlv = lift(inner.read_tlv())?;
            let base = GeneralName::from_tlv(tlv)?;
            validate_general_name(base, true)?;
            lift(inner.finish())?;
            if count >= MAX_EXTENSION_VALUES {
                return Err(Error::TooManyEntries);
            }
            proof {
                done = done.push(base@);
                lemma_kind_push(before, base@, |n: GeneralNameView| on_dns(n));
                lemma_kind_push(before, base@, |n: GeneralNameView| on_ip(n));
                lemma_kind_push(before, base@, |n: GeneralNameView| on_other(n));
                if let Ok(l) = subtrees(reader@, done.len()) {
                    assert(before + (seq![base@] + l) =~= done + l);
                }
            }
            match base {
                GeneralName::DnsName(_) => dns = true,
                GeneralName::IpAddress(_) => ip = true,
                GeneralName::Other { .. } => unsupported = true,
            }
            count = count + 1;
        }
        if count == 0 {
            return Err(Error::BadName);
        }
        assert(done + Seq::empty() =~= done);
        Ok(Self { contents: Some(contents), dns, ip, unsupported, count: count as u8 })
    }

    /// How many constraints there are.
    pub fn count(&self) -> (r: u8)
        ensures
            r == self@.len(),
    {
        proof {
            use_type_invariant(self);
        }
        self.count
    }

    /// Whether there is a constraint on names of a form that is not checked.
    pub fn has_unsupported(self) -> (r: bool)
        ensures
            r == has_kind(self@, |n: GeneralNameView| on_other(n)),
    {
        proof {
            use_type_invariant(&self);
        }
        self.unsupported
    }

    /// Whether there is no constraint on DNS names.
    pub fn dns_is_empty(self) -> (r: bool)
        ensures
            r == !has_kind(self@, |n: GeneralNameView| on_dns(n)),
    {
        proof {
            use_type_invariant(&self);
        }
        !self.dns
    }

    /// Whether there is no constraint on IP addresses.
    pub fn ip_is_empty(self) -> (r: bool)
        ensures
            r == !has_kind(self@, |n: GeneralNameView| on_ip(n)),
    {
        proof {
            use_type_invariant(&self);
        }
        !self.ip
    }

    /// Whether a DNS name lies in one of the subtrees.
    pub fn dns_matches(self, name: &[u8]) -> (r: Result<bool, Error>)
        ensures
            r == Ok::<bool, Error>(dns_match(self@, name@)),
    {
        let mut it = self.iter();
        let ghost kind = |n: GeneralNameView| n is Dns && in_dns_subtree(name@, n->Dns_0);
        loop
            invariant
                kind == (|n: GeneralNameView| n is Dns && in_dns_subtree(name@, n->Dns_0)),
                has_kind(self@, kind) == has_kind(it@, kind),
                dns_match(self@, name@) == has_kind(self@, kind),
            decreases it@.len(),
        {
            let ghost before = it@;
            match it.next() {
                None => return Ok(false),
                Some(Err(e)) => return Err(e),
                Some(Ok(n)) => {
                    proof {
                        lemma_kind_front(before, kind);
                    }
                    if let GeneralName::DnsName(constraint) = n {
                        if GeneralName::dns_in_subtree(name, constraint) {
                            return Ok(true);
                        }
                    }
                },
            }
        }
    }

    /// Whether an address lies in one of the subtrees.
    pub fn ip_matches(self, address: &[u8]) -> (r: Result<bool, Error>)
        ensures
            r == Ok::<bool, Error>(ip_match(self@, address@)),
    {
        let mut it = self.iter();
        let ghost kind = |n: GeneralNameView| n is Ip && in_ip_subtree(address@, n->Ip_0);
        loop
            invariant
                kind == (|n: GeneralNameView| n is Ip && in_ip_subtree(address@, n->Ip_0)),
                has_kind(self@, kind) == has_kind(it@, kind),
                ip_match(self@, address@) == has_kind(self@, kind),
            decreases it@.len(),
        {
            let ghost before = it@;
            match it.next() {
                None => return Ok(false),
                Some(Err(e)) => return Err(e),
                Some(Ok(n)) => {
                    proof {
                        lemma_kind_front(before, kind);
                    }
                    if let GeneralName::IpAddress(network) = n {
                        if GeneralName::ip_in_subtree(address, network) {
                            return Ok(true);
                        }
                    }
                },
            }
        }
    }

    /// An iteration over the constraints.
    pub fn iter(self) -> (r: SubtreeIter<'a>)
        ensures
            r@ == self@,
    {
        proof {
            use_type_invariant(&self);
        }
        match self.contents {
            Some(c) => SubtreeIter { reader: Reader::new(c), read: Ghost(0) },
            None => {
                let r = SubtreeIter { reader: Reader::new(&[]), read: Ghost(1) };
                r
            },
        }
    }
}

proof fn lemma_kind_push(l: Seq<GeneralNameView>, n: GeneralNameView, kind: spec_fn(GeneralNameView) -> bool)
    ensures
        has_kind(l.push(n), kind) == (has_kind(l, kind) || kind(n)),
{
    if has_kind(l, kind) {
        let i = choose|i: int| 0 <= i < l.len() && kind(#[trigger] l[i]);
        assert(l.push(n)[i] == l[i]);
    }
    if kind(n) {
        assert(l.push(n)[l.len() as int] == n);
    }
}

/// A kind occurs in a list where it occurs in front or behind.
pub proof fn lemma_kind_front(l: Seq<GeneralNameView>, kind: spec_fn(GeneralNameView) -> bool)
    requires
        l.len() > 0,
    ensures
        has_kind(l, kind) == (kind(l[0]) || has_kind(l.skip(1), kind)),
{
    if has_kind(l, kind) {
        let i = choose|i: int| 0 <= i < l.len() && kind(#[trigger] l[i]);
        if i > 0 {
            assert(l.skip(1)[i - 1] == l[i]);
        }
    }
    if has_kind(l.skip(1), kind) {
        let i = choose|i: int| 0 <= i < l.skip(1).len() && kind(#[trigger] l.skip(1)[i]);
        assert(l[i + 1] == l.skip(1)[i]);
    }
}

/// An iteration over constraints; its view is those that are left.
pub struct SubtreeIter<'a> {
    reader: Reader<'a>,
    read: Ghost<nat>,
}

impl<'a> View for SubtreeIter<'a> {
    type V = Seq<GeneralNameView>;

    closed spec fn view(&self) -> Seq<GeneralNameView> {
        subtrees(self.reader@, self.read@)->Ok_0
    }
}

impl<'a> SubtreeIter<'a> {
    #[verifier::type_invariant]
    spec fn valid(self) -> bool {
        subtrees(self.reader@, self.read@) is Ok
    }

    /// The next constraint.
    pub fn next(&mut self) -> (r: Option<Result<GeneralName<'a>, Error>>)
        ensures
            old(self)@.len() == 0 ==> r is None && final(self)@ == old(self)@,
            old(self)@.len() > 0 ==> {
                &&& r is Some
                &&& r->0 is Ok
                &&& r->0->Ok_0@ == old(self)@[0]
                &&& final(self)@ == old(self)@.skip(1)
            },
    {
        proof {
            use_type_invariant(&*self);
        }
        let mut reader = self.reader;
        if reader.is_empty() {
            return None;
        }
        let ghost before = self@;
        let ghost l = subtrees(after_tlv(self.reader@), self.read@ + 1)->Ok_0;
        let subtree = match lift(reader.read_tagged(Tag(Tag::SEQUENCE))) {
            Ok(c) => c,
            Err(e) => return Some(Err(e)),
        };
        let mut inner = Reader::new(subtree);
        let tlv = match lift(inner.read_tlv()) {
            Ok(t) => t,
            Err(e) => return Some(Err(e)),
        };
        *self = Self { reader, read: Ghost(self.read@ + 1) };
        assert(before.skip(1) =~= self@);
        Some(GeneralName::from_tlv(tlv))
    }
}

/// The name constraints in an extension value: permitted and excluded subtrees, of
/// which at least one list is present.
pub open spec fn name_constraints(value: Seq<u8>) -> Result<
    (Option<Seq<GeneralNameView>>, Option<Seq<GeneralNameView>>),
    Error,
> {
    match der_whole(value, Tag::SEQUENCE) {
        Err(e) => Err(Error::Der(e)),
        Ok(c) => match optional_subtrees(c, 0xa0) {
            Err(e) => Err(e),
            Ok(permitted) => {
                let rest = after_optional(c, 0xa0);
                match optional_subtrees(rest, 0xa1) {
                    Err(e) => Err(e),
                    Ok(excluded) => if after_optional(rest, 0xa1).len() > 0 {
                        Err(Error::Der(DerError::Trailing))
                    } else if permitted is None && excluded is None {
                        Err(Error::BadName)
                    } else {
                        Ok((permitted, excluded))
                    },
                }
            },
        },
    }
}

/// The subtrees at the front of `s` where it has tag `tag`.
pub open spec fn optional_subtrees(s: Seq<u8>, tag: u8) -> Result<Option<Seq<GeneralNameView>>, Error> {
    match der_optional(s, tag) {
        Err(e) => Err(Error::Der(e)),
        Ok(None) => Ok(None),
        Ok(Some(c)) => match subtrees(c, 0) {
            Ok(l) => Ok(Some(l)),
            Err(e) => Err(e),
        },
    }
}

/// The list, or no constraints where it is absent.
pub open spec fn or_none(l: Option<Seq<GeneralNameView>>) -> Seq<GeneralNameView> {
    match l {
        Some(s) => s,
        None => Seq::empty(),
    }
}

/// Subtrees that names below a CA must lie in, and subtrees that they must not.
#[derive(Debug, Clone, Copy)]
pub struct NameConstraints<'a> {
    pub permitted: Subtrees<'a>,
    pub excluded: Subtrees<'a>,
}

impl<'a> NameConstraints<'a> {
    /// Reads an extension value.
    pub fn parse(value: &'a [u8]) -> (r: Result<Self, Error>)
        ensures
            match name_constraints(value@) {
                Ok((p, x)) => r is Ok && r->Ok_0.permitted@ == or_none(p) && r->Ok_0.excluded@ == or_none(x),
                Err(e) => r matches Err(d) && d == e,
            },
    {
        let inner = lift(read_whole(value, Tag(Tag::SEQUENCE)))?;
        let mut reader = Reader::new(inner);
        let mut permitted = Subtrees::default();
        let mut excluded = Subtrees::default();
        let mut present = false;
        if let Some(contents) = lift(reader.read_optional(Tag::context(0, true)))? {
            permitted = Subtrees::parse(contents)?;
            present = true;
        }
        if let Some(contents) = lift(reader.read_optional(Tag::context(1, true)))? {
            excluded = Subtrees::parse(contents)?;
            present = true;
        }
        lift(reader.finish())?;
        if !present {
            return Err(Error::BadName);
        }
        Ok(Self { permitted, excluded })
    }
}

} // verus!
