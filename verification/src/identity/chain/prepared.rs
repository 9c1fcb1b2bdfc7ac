//! Name constraints that are read once and checked many times.

use vstd::prelude::*;

use crate::codec::to_vec;
use crate::identity::cert::ext::scope::{
    dns_match, has_kind, in_dns_subtree, in_ip_subtree, ip_match, on_dns, on_ip, GeneralName,
    GeneralNameView, NameConstraints, Subtrees,
};
use crate::identity::chain::extensions::{
    constraints_verdict, name_allowed, profile_allowed, profile_views, supported, ConstraintsView, Profile,
    ProfileView,
};
use crate::identity::chain::{constraints_in, Error};
use crate::psk::byte_strings;

verus! {

/// The DNS subtrees of a list of constraints.
pub open spec fn dns_of(l: Seq<GeneralNameView>) -> Seq<Seq<u8>>
    decreases l.len(),
{
    if l.len() == 0 {
        Seq::empty()
    } else if let GeneralNameView::Dns(d) = l.last() {
        dns_of(l.drop_last()).push(d)
    } else {
        dns_of(l.drop_last())
    }
}

/// The networks of a list of constraints.
pub open spec fn ip_of(l: Seq<GeneralNameView>) -> Seq<Seq<u8>>
    decreases l.len(),
{
    if l.len() == 0 {
        Seq::empty()
    } else if let GeneralNameView::Ip(a) = l.last() {
        ip_of(l.drop_last()).push(a)
    } else {
        ip_of(l.drop_last())
    }
}

/// Constraints, kind by kind.
#[verifier::ext_equal]
pub struct PreparedView {
    pub permitted_dns: Seq<Seq<u8>>,
    pub permitted_ip: Seq<Seq<u8>>,
    pub excluded_dns: Seq<Seq<u8>>,
    pub excluded_ip: Seq<Seq<u8>>,
    pub has_unsupported: bool,
}

/// Constraints, sorted by kind.
pub open spec fn prepared_of(c: ConstraintsView) -> PreparedView {
    PreparedView {
        permitted_dns: dns_of(c.permitted),
        permitted_ip: ip_of(c.permitted),
        excluded_dns: dns_of(c.excluded),
        excluded_ip: ip_of(c.excluded),
        has_unsupported: !supported(c),
    }
}

/// Whether a DNS name lies in one of several subtrees.
pub open spec fn in_any_domain(values: Seq<Seq<u8>>, name: Seq<u8>) -> bool {
    exists|i: int| 0 <= i < values.len() && in_dns_subtree(name, #[trigger] values[i])
}

/// Whether an address lies in one of several networks.
pub open spec fn in_any_network(values: Seq<Seq<u8>>, address: Seq<u8>) -> bool {
    exists|i: int| 0 <= i < values.len() && in_ip_subtree(address, #[trigger] values[i])
}

/// Whether prepared constraints allow a name.
pub open spec fn prepared_allows(p: PreparedView, n: GeneralNameView) -> bool {
    match n {
        GeneralNameView::Dns(d) => !in_any_domain(p.excluded_dns, d) && (p.permitted_dns.len() > 0
            ==> in_any_domain(p.permitted_dns, d)),
        GeneralNameView::Ip(a) => !in_any_network(p.excluded_ip, a) && (p.permitted_ip.len() > 0
            ==> in_any_network(p.permitted_ip, a)),
        GeneralNameView::Other(_, _) => true,
    }
}

/// Whether prepared constraints allow every name of a certificate.
pub open spec fn prepared_allows_all(p: PreparedView, c: ProfileView) -> bool {
    forall|i: int| 0 <= i < c.names.len() ==> prepared_allows(p, #[trigger] c.names[i])
}

/// Whether prepared constraints allow every name of every certificate below.
pub open spec fn prepared_verdict(p: PreparedView, below: Seq<ProfileView>) -> Result<(), Error> {
    if !p.has_unsupported && forall|i: int|
        0 <= i < below.len() ==> prepared_allows_all(p, #[trigger] below[i]) {
        Ok(())
    } else {
        Err(Error::NameConstraintViolation)
    }
}

proof fn lemma_dns_of(l: Seq<GeneralNameView>, name: Seq<u8>)
    ensures
        in_any_domain(dns_of(l), name) == dns_match(l, name),
        (dns_of(l).len() > 0) == has_kind(l, |m: GeneralNameView| on_dns(m)),
    decreases l.len(),
{
    let any = |m: GeneralNameView| on_dns(m);
    let matching = |n: GeneralNameView| n is Dns && in_dns_subtree(name, n->Dns_0);
    if l.len() > 0 {
        let init = l.drop_last();
        let v = dns_of(init);
        lemma_dns_of(init, name);
        lemma_kind_last(l, any);
        lemma_kind_last(l, matching);
        if let GeneralNameView::Dns(d) = l.last() {
            lemma_domain_push(v, d, name);
        }
    }
}

proof fn lemma_ip_of(l: Seq<GeneralNameView>, address: Seq<u8>)
    ensures
        in_any_network(ip_of(l), address) == ip_match(l, address),
        (ip_of(l).len() > 0) == has_kind(l, |m: GeneralNameView| on_ip(m)),
    decreases l.len(),
{
    let any = |m: GeneralNameView| on_ip(m);
    let matching = |n: GeneralNameView| n is Ip && in_ip_subtree(address, n->Ip_0);
    if l.len() > 0 {
        let init = l.drop_last();
        let v = ip_of(init);
        lemma_ip_of(init, address);
        lemma_kind_last(l, any);
        lemma_kind_last(l, matching);
        if let GeneralNameView::Ip(a) = l.last() {
            lemma_network_push(v, a, address);
        }
    }
}

proof fn lemma_kind_last(l: Seq<GeneralNameView>, kind: spec_fn(GeneralNameView) -> bool)
    requires
        l.len() > 0,
    ensures
        has_kind(l, kind) == (has_kind(l.drop_last(), kind) || kind(l.last())),
{
    let init = l.drop_last();
    if has_kind(l, kind) && !kind(l.last()) {
        let i = choose|i: int| 0 <= i < l.len() && kind(#[trigger] l[i]);
        assert(init[i] == l[i]);
    }
    if has_kind(init, kind) {
        let i = choose|i: int| 0 <= i < init.len() && kind(#[trigger] init[i]);
        assert(l[i] == init[i]);
    }
    assert(l[l.len() - 1] == l.last());
}

proof fn lemma_domain_push(v: Seq<Seq<u8>>, d: Seq<u8>, name: Seq<u8>)
    ensures
        in_any_domain(v.push(d), name) == (in_any_domain(v, name) || in_dns_subtree(name, d)),
{
    let w = v.push(d);
    if in_any_domain(v, name) {
        let i = choose|i: int| 0 <= i < v.len() && in_dns_subtree(name, #[trigger] v[i]);
        assert(w[i] == v[i]);
    }
    assert(w[v.len() as int] == d);
    if in_any_domain(w, name) && !in_dns_subtree(name, d) {
        let i = choose|i: int| 0 <= i < w.len() && in_dns_subtree(name, #[trigger] w[i]);
        assert(v[i] == w[i]);
    }
}

proof fn lemma_network_push(v: Seq<Seq<u8>>, a: Seq<u8>, address: Seq<u8>)
    ensures
        in_any_network(v.push(a), address) == (in_any_network(v, address) || in_ip_subtree(address, a)),
{
    let w = v.push(a);
    if in_any_network(v, address) {
        let i = choose|i: int| 0 <= i < v.len() && in_ip_subtree(address, #[trigger] v[i]);
        assert(w[i] == v[i]);
    }
    assert(w[v.len() as int] == a);
    if in_any_network(w, address) && !in_ip_subtree(address, a) {
        let i = choose|i: int| 0 <= i < w.len() && in_ip_subtree(address, #[trigger] w[i]);
        assert(v[i] == w[i]);
    }
}

/// Prepared constraints allow exactly what the constraints that they were prepared
/// from allow.
pub proof fn law_preparing_changes_no_verdict(c: ConstraintsView, below: Seq<ProfileView>)
    ensures
        prepared_verdict(prepared_of(c), below) == constraints_verdict(c, below),
{
    let p = prepared_of(c);
    assert forall|n: GeneralNameView| prepared_allows(p, n) == name_allowed(c, n) by {
        match n {
            GeneralNameView::Dns(d) => {
                lemma_dns_of(c.permitted, d);
                lemma_dns_of(c.excluded, d);
            },
            GeneralNameView::Ip(a) => {
                lemma_ip_of(c.permitted, a);
                lemma_ip_of(c.excluded, a);
            },
            GeneralNameView::Other(_, _) => {},
        }
    }
    assert forall|i: int| 0 <= i < below.len() implies prepared_allows_all(p, #[trigger] below[i])
        == profile_allowed(c, below[i]) by {
        let names = below[i].names;
        if prepared_allows_all(p, below[i]) {
            assert forall|j: int| 0 <= j < names.len() implies name_allowed(c, #[trigger] names[j]) by {
                assert(prepared_allows(p, names[j]));
            }
        }
        if profile_allowed(c, below[i]) {
            assert forall|j: int| 0 <= j < names.len() implies prepared_allows(p, #[trigger] names[j]) by {
                assert(name_allowed(c, names[j]));
            }
        }
    }
}

/// What prepared constraints allow does not depend on the order of the certificates.
pub proof fn lemma_prepared_of_set(p: PreparedView, a: Seq<ProfileView>, b: Seq<ProfileView>)
    requires
        forall|i: int| 0 <= i < a.len() ==> b.contains(#[trigger] a[i]),
        forall|i: int| 0 <= i < b.len() ==> a.contains(#[trigger] b[i]),
    ensures
        prepared_verdict(p, a) == prepared_verdict(p, b),
{
    if forall|i: int| 0 <= i < b.len() ==> prepared_allows_all(p, #[trigger] b[i]) {
        assert forall|i: int| 0 <= i < a.len() implies prepared_allows_all(p, #[trigger] a[i]) by {
            let j = choose|j: int| 0 <= j < b.len() && b[j] == a[i];
            assert(prepared_allows_all(p, b[j]));
        }
    }
    if forall|i: int| 0 <= i < a.len() ==> prepared_allows_all(p, #[trigger] a[i]) {
        assert forall|i: int| 0 <= i < b.len() implies prepared_allows_all(p, #[trigger] b[i]) by {
            let j = choose|j: int| 0 <= j < a.len() && a[j] == b[i];
            assert(prepared_allows_all(p, a[j]));
        }
    }
}

/// Name constraints that are read once and checked many times.
#[derive(Debug)]
pub struct PreparedNameConstraints {
    permitted_dns: Vec<Vec<u8>>,
    permitted_ip: Vec<Vec<u8>>,
    excluded_dns: Vec<Vec<u8>>,
    excluded_ip: Vec<Vec<u8>>,
    has_unsupported: bool,
}

impl View for PreparedNameConstraints {
    type V = PreparedView;

    closed spec fn view(&self) -> PreparedView {
        PreparedView {
            permitted_dns: byte_strings(self.permitted_dns@),
            permitted_ip: byte_strings(self.permitted_ip@),
            excluded_dns: byte_strings(self.excluded_dns@),
            excluded_ip: byte_strings(self.excluded_ip@),
            has_unsupported: self.has_unsupported,
        }
    }
}

/// The DNS subtrees and the networks of a list of constraints.
fn sorted(subtrees: Subtrees<'_>) -> (r: (Vec<Vec<u8>>, Vec<Vec<u8>>))
    ensures
        byte_strings(r.0@) == dns_of(subtrees@),
        byte_strings(r.1@) == ip_of(subtrees@),
{
    let mut dns: Vec<Vec<u8>> = Vec::new();
    let mut ip: Vec<Vec<u8>> = Vec::new();
    let mut it = subtrees.iter();
    let ghost l = subtrees@;
    let ghost mut done: Seq<GeneralNameView> = Seq::empty();
    assert(done + it@ =~= l);
    assert(byte_strings(dns@) =~= Seq::empty());
    assert(byte_strings(ip@) =~= Seq::empty());
    loop
        invariant
            l == subtrees@,
            done + it@ == l,
            byte_strings(dns@) == dns_of(done),
            byte_strings(ip@) == ip_of(done),
        decreases it@.len(),
    {
        let ghost rest = it@;
        let ghost dns_before = dns@;
        let ghost ip_before = ip@;
        match it.next() {
            None => {
                assert(done =~= l);
                return (dns, ip);
            },
            Some(Err(_)) => {
                assert(false);
            },
            Some(Ok(name)) => {
                proof {
                    assert(done.push(name@) + it@ =~= l);
                    assert(done.push(name@).drop_last() =~= done);
                    done = done.push(name@);
                }
                match name {
                    GeneralName::DnsName(d) => {
                        dns.push(to_vec(d));
                        assert(byte_strings(dns@) =~= byte_strings(dns_before).push(d@));
                    },
                    GeneralName::IpAddress(a) => {
                        ip.push(to_vec(a));
                        assert(byte_strings(ip@) =~= byte_strings(ip_before).push(a@));
                    },
                    GeneralName::Other { .. } => {},
                }
            },
        }
    }
}

/// Whether a DNS name lies in one of several subtrees.
fn any_domain(values: &Vec<Vec<u8>>, name: &[u8]) -> (r: bool)
    ensures
        r == in_any_domain(byte_strings(values@), name@),
{
    let ghost v = byte_strings(values@);
    let mut i: usize = 0;
    while i < values.len()
        invariant
            i <= values.len(),
            v == byte_strings(values@),
            forall|j: int| 0 <= j < i ==> !in_dns_subtree(name@, #[trigger] v[j]),
        decreases values.len() - i,
    {
        assert(v[i as int] == values@[i as int]@);
        if GeneralName::dns_in_subtree(name, values[i].as_slice()) {
            return true;
        }
        i = i + 1;
    }
    false
}

/// Whether an address lies in one of several networks.
fn any_network(values: &Vec<Vec<u8>>, address: &[u8]) -> (r: bool)
    ensures
        r == in_any_network(byte_strings(values@), address@),
{
    let ghost v = byte_strings(values@);
    let mut i: usize = 0;
    while i < values.len()
        invariant
            i <= values.len(),
            v == byte_strings(values@),
            forall|j: int| 0 <= j < i ==> !in_ip_subtree(address@, #[trigger] v[j]),
        decreases values.len() - i,
    {
        assert(v[i as int] == values@[i as int]@);
        if GeneralName::ip_in_subtree(address, values[i].as_slice()) {
            return true;
        }
        i = i + 1;
    }
    false
}

impl PreparedNameConstraints {
    /// Reads the value of a name constraints extension.
    pub fn parse(der: &[u8]) -> (r: Result<Self, Error>)
        ensures
            match constraints_in(der@) {
                Ok(c) => r is Ok && r->Ok_0@ == prepared_of(c),
                Err(e) => r is Err && r->Err_0 == e,
            },
    {
        let parsed = match NameConstraints::parse(der) {
            Ok(c) => c,
            Err(e) => return Err(Error::from(e)),
        };
        let has_unsupported = parsed.permitted.has_unsupported() || parsed.excluded.has_unsupported();
        let (permitted_dns, permitted_ip) = sorted(parsed.permitted);
        let (excluded_dns, excluded_ip) = sorted(parsed.excluded);
        Ok(Self { permitted_dns, permitted_ip, excluded_dns, excluded_ip, has_unsupported })
    }

    /// Whether there is a constraint on names of a form that is not checked.
    pub fn has_unsupported(&self) -> (r: bool)
        ensures
            r == self@.has_unsupported,
    {
        self.has_unsupported
    }

    /// The permitted DNS subtrees.
    pub fn permitted_dns(&self) -> (r: &Vec<Vec<u8>>)
        ensures
            byte_strings(r@) == self@.permitted_dns,
    {
        &self.permitted_dns
    }

    /// The permitted networks.
    pub fn permitted_ip(&self) -> (r: &Vec<Vec<u8>>)
        ensures
            byte_strings(r@) == self@.permitted_ip,
    {
        &self.permitted_ip
    }

    /// The excluded DNS subtrees.
    pub fn excluded_dns(&self) -> (r: &Vec<Vec<u8>>)
        ensures
            byte_strings(r@) == self@.excluded_dns,
    {
        &self.excluded_dns
    }

    /// The excluded networks.
    pub fn excluded_ip(&self) -> (r: &Vec<Vec<u8>>)
        ensures
            byte_strings(r@) == self@.excluded_ip,
    {
        &self.excluded_ip
    }

    fn allows(&self, name: GeneralName<'_>) -> (r: bool)
        ensures
            r == prepared_allows(self@, name@),
    {
        match name {
            GeneralName::DnsName(d) => !any_domain(&self.excluded_dns, d) && (self.permitted_dns.len() == 0
                || any_domain(&self.permitted_dns, d)),
            GeneralName::IpAddress(a) => !any_network(&self.excluded_ip, a) && (self.permitted_ip.len()
                == 0 || any_network(&self.permitted_ip, a)),
            GeneralName::Other { .. } => true,
        }
    }

    /// Whether the constraints allow every name of every certificate below.
    pub fn check_prepared_name_constraints(&self, below: &Vec<Profile<'_>>) -> (r: Result<(), Error>)
        ensures
            r == prepared_verdict(self@, profile_views(below@)),
    {
        if self.has_unsupported {
            return Err(Error::NameConstraintViolation);
        }
        let ghost l = profile_views(below@);
        let mut i: usize = 0;
        while i < below.len()
            invariant
                i <= below.len(),
                l == profile_views(below@),
                !self@.has_unsupported,
                forall|j: int| 0 <= j < i ==> prepared_allows_all(self@, #[trigger] l[j]),
            decreases below.len() - i,
        {
            assert(l[i as int] == below@[i as int]@);
            let names = below[i].alternative_names();
            let ghost seen = l[i as int].names;
            let mut k: usize = 0;
            while k < names.len()
                invariant
                    k <= names.len(),
                    i < below.len(),
                    l == profile_views(below@),
                    l[i as int].names == seen,
                    names.len() == seen.len(),
                    forall|j: int| 0 <= j < seen.len() ==> (#[trigger] names@[j])@ == seen[j],
                    forall|j: int| 0 <= j < k ==> prepared_allows(self@, #[trigger] seen[j]),
                decreases names.len() - k,
            {
                if !self.allows(names[k]) {
                    assert(!prepared_allows(self@, seen[k as int]));
                    assert(!prepared_allows_all(self@, l[i as int]));
                    return Err(Error::NameConstraintViolation);
                }
                k = k + 1;
            }
            i = i + 1;
        }
        Ok(())
    }
}

} // verus!
