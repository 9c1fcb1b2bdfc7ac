//! The order of a chain's certificates, from the end entity up.

use arrayvec::ArrayVec;
use vstd::prelude::*;

use crate::codec::bytes_eq;
use crate::crypto::hash::hashable;
use crate::identity::cert::{signed_by, Cert, CertView};
use crate::identity::chain::MAX_LEN;

verus! {

/// Whether the signature over a link is known to verify.
#[derive(Debug, Clone, Copy, PartialEq, Eq, Structural)]
pub enum SignatureProof {
    NeedsVerification,
    Verified,
}

/// What each certificate is.
pub open spec fn cert_views(l: Seq<Cert<'_>>) -> Seq<CertView> {
    l.map_values(|c: Cert<'_>| c@)
}

/// Whether a certificate's signature verifies under another's key.
pub open spec fn verifies(certs: Seq<CertView>, subject: int, issuer: int) -> bool {
    let c = certs[subject];
    signed_by(c.tbs_der, c.tbs.signature_alg, c.signature, certs[issuer].tbs.spki) is Ok
}

/// The certificates from `i` on that are not on a path and whose subject is the
/// issuer of the last one that is.
pub open spec fn candidates(certs: Seq<CertView>, path: Seq<usize>, i: int) -> Seq<usize>
    decreases certs.len() - i,
{
    if i >= certs.len() {
        Seq::empty()
    } else {
        let rest = candidates(certs, path, i + 1);
        if path.contains(i as usize) || certs[i].tbs.subject != certs[path.last() as int].tbs.issuer {
            rest
        } else {
            seq![i as usize] + rest
        }
    }
}

/// The first of `l` from `k` on whose key the certificate's signature verifies
/// under.
pub open spec fn first_verifying(certs: Seq<CertView>, subject: int, l: Seq<usize>, k: int) -> Option<usize>
    decreases l.len() - k,
{
    if k >= l.len() {
        None
    } else if verifies(certs, subject, l[k] as int) {
        Some(l[k])
    } else {
        first_verifying(certs, subject, l, k + 1)
    }
}

/// What follows a path: the only certificate that can, or among several the first
/// whose key verifies, or the first.
pub open spec fn chosen(certs: Seq<CertView>, path: Seq<usize>) -> Option<(usize, SignatureProof)> {
    let l = candidates(certs, path, 0);
    if l.len() == 0 {
        None
    } else if l.len() == 1 {
        Some((l[0], SignatureProof::NeedsVerification))
    } else {
        match first_verifying(certs, path.last() as int, l, 0) {
            Some(i) => Some((i, SignatureProof::Verified)),
            None => Some((l[0], SignatureProof::NeedsVerification)),
        }
    }
}

/// A path and its links, extended as far as certificates follow.
pub open spec fn extended(certs: Seq<CertView>, path: Seq<usize>, links: Seq<SignatureProof>) -> (
    Seq<usize>,
    Seq<SignatureProof>,
)
    decreases certs.len() - path.len(),
{
    match chosen(certs, path) {
        None => (path, links),
        Some((i, proved)) => if path.len() >= certs.len() {
            (path, links)
        } else {
            extended(certs, path.push(i), links.push(proved))
        },
    }
}

/// The order of a chain.
pub open spec fn ordered(certs: Seq<CertView>) -> (Seq<usize>, Seq<SignatureProof>) {
    extended(certs, seq![0usize], Seq::empty())
}

/// Whether a path is of certificates that differ, each issued by the name of the
/// next.
pub open spec fn linked(certs: Seq<CertView>, path: Seq<usize>) -> bool {
    &&& 0 < path.len() <= certs.len()
    &&& path[0] == 0
    &&& path.no_duplicates()
    &&& forall|k: int| 0 <= k < path.len() ==> (#[trigger] path[k]) < certs.len()
    &&& forall|k: int|
        0 < k < path.len() ==> certs[(#[trigger] path[k]) as int].tbs.subject
            == certs[path[k - 1] as int].tbs.issuer
}

/// The order of a chain starts with the end entity, has no certificate twice, and
/// each is issued by the name of the next; there is a link between any two.
pub proof fn law_order_linked(certs: Seq<CertView>)
    requires
        0 < certs.len() <= usize::MAX,
    ensures
        linked(certs, ordered(certs).0),
        ordered(certs).1.len() == ordered(certs).0.len() - 1,
{
    lemma_extended_linked(certs, seq![0usize], Seq::empty());
}

proof fn lemma_candidates(certs: Seq<CertView>, path: Seq<usize>, i: int)
    requires
        0 <= i,
        certs.len() <= usize::MAX,
    ensures
        forall|k: int|
            0 <= k < candidates(certs, path, i).len() ==> {
                let j = #[trigger] candidates(certs, path, i)[k];
                &&& i <= j < certs.len()
                &&& !path.contains(j)
                &&& certs[j as int].tbs.subject == certs[path.last() as int].tbs.issuer
            },
    decreases certs.len() - i,
{
    if i < certs.len() {
        lemma_candidates(certs, path, i + 1);
        let rest = candidates(certs, path, i + 1);
        let all = candidates(certs, path, i);
        assert forall|k: int| 0 <= k < all.len() implies {
            let j = #[trigger] all[k];
            &&& i <= j < certs.len()
            &&& !path.contains(j)
            &&& certs[j as int].tbs.subject == certs[path.last() as int].tbs.issuer
        } by {
            if all.len() == rest.len() {
                assert(all[k] == rest[k]);
            } else if k > 0 {
                assert(all[k] == rest[k - 1]);
            }
        }
    }
}

proof fn lemma_first_verifying(certs: Seq<CertView>, subject: int, l: Seq<usize>, k: int)
    requires
        0 <= k,
    ensures
        first_verifying(certs, subject, l, k) matches Some(i) ==> l.contains(i),
    decreases l.len() - k,
{
    if k < l.len() && !verifies(certs, subject, l[k] as int) {
        lemma_first_verifying(certs, subject, l, k + 1);
    }
}

proof fn lemma_chosen(certs: Seq<CertView>, path: Seq<usize>)
    requires
        certs.len() <= usize::MAX,
    ensures
        chosen(certs, path) matches Some((j, _)) ==> {
            &&& j < certs.len()
            &&& !path.contains(j)
            &&& certs[j as int].tbs.subject == certs[path.last() as int].tbs.issuer
        },
{
    let l = candidates(certs, path, 0);
    lemma_candidates(certs, path, 0);
    lemma_first_verifying(certs, path.last() as int, l, 0);
    if let Some((j, _)) = chosen(certs, path) {
        assert(l.contains(j)) by {
            assert(l[0] == l[0]);
        }
        let k = choose|k: int| 0 <= k < l.len() && l[k] == j;
        assert(l[k] == j);
    }
}

proof fn lemma_push_linked(certs: Seq<CertView>, path: Seq<usize>, j: usize)
    requires
        linked(certs, path),
        path.len() < certs.len(),
        j < certs.len(),
        !path.contains(j),
        certs[j as int].tbs.subject == certs[path.last() as int].tbs.issuer,
    ensures
        linked(certs, path.push(j)),
{
    let q = path.push(j);
    assert(q.no_duplicates()) by {
        assert forall|a: int, b: int| 0 <= a < q.len() && 0 <= b < q.len() && a != b implies q[a] != q[b] by {
            if a < path.len() && b < path.len() {
                assert(q[a] == path[a] && q[b] == path[b]);
            } else if a < path.len() {
                assert(path.contains(path[a]));
            } else {
                assert(path.contains(path[b]));
            }
        }
    }
    assert forall|k: int| 0 <= k < q.len() implies (#[trigger] q[k]) < certs.len() by {
        if k < path.len() {
            assert(q[k] == path[k]);
        }
    }
    assert forall|k: int| 0 < k < q.len() implies certs[(#[trigger] q[k]) as int].tbs.subject
        == certs[q[k - 1] as int].tbs.issuer by {
        if k < path.len() {
            assert(q[k] == path[k]);
            assert(q[k - 1] == path[k - 1]);
        }
    }
}

proof fn lemma_extended_linked(certs: Seq<CertView>, path: Seq<usize>, links: Seq<SignatureProof>)
    requires
        certs.len() <= usize::MAX,
        linked(certs, path),
        links.len() == path.len() - 1,
    ensures
        linked(certs, extended(certs, path, links).0),
        extended(certs, path, links).1.len() == extended(certs, path, links).0.len() - 1,
    decreases certs.len() - path.len(),
{
    lemma_chosen(certs, path);
    if let Some((j, proved)) = chosen(certs, path) {
        if path.len() < certs.len() {
            lemma_push_linked(certs, path, j);
            lemma_extended_linked(certs, path.push(j), links.push(proved));
        }
    }
}

/// A path that has every certificate has no candidate left.
proof fn lemma_not_full(certs: Seq<CertView>, path: Seq<usize>, j: usize)
    requires
        linked(certs, path),
        j < certs.len(),
        !path.contains(j),
    ensures
        path.len() < certs.len(),
{
    path.unique_seq_to_set();
    let all = vstd::set_lib::set_int_range(0, certs.len() as int);
    vstd::set_lib::lemma_int_range(0, certs.len() as int);
    let ints = path.to_set().map(|x: usize| x as int);
    vstd::set_lib::lemma_map_size(path.to_set(), ints, |x: usize| x as int);
    assert(ints.subset_of(all.remove(j as int))) by {
        assert forall|x: int| ints.contains(x) implies all.remove(j as int).contains(x) by {
            let y = choose|y: usize| path.to_set().contains(y) && x == y as int;
            assert(path.contains(y));
            let k = choose|k: int| 0 <= k < path.len() && path[k] == y;
            assert(path[k] < certs.len());
        }
    }
    vstd::set_lib::lemma_len_subset(ints, all.remove(j as int));
}

/// The positions that a list holds, in order.
pub uninterp spec fn positions(v: ArrayVec<usize, 10>) -> Seq<usize>;

/// `ArrayVec::new`: an empty list.
#[verifier::external_body]
fn new_positions() -> (r: ArrayVec<usize, 10>)
    ensures
        positions(r) == Seq::<usize>::empty(),
{
    ArrayVec::new()
}

/// `ArrayVec::push`: appends. It panics on a full list, which is left out.
#[verifier::external_body]
fn push_position(v: &mut ArrayVec<usize, 10>, i: usize)
    requires
        positions(*old(v)).len() < 10,
    ensures
        positions(*final(v)) == positions(*old(v)).push(i),
{
    v.push(i)
}

/// `ArrayVec::as_slice`: the entries in order.
#[verifier::external_body]
fn positions_slice(v: &ArrayVec<usize, 10>) -> (r: &[usize])
    ensures
        r@ == positions(*v),
{
    v.as_slice()
}

/// The order of a chain, and for each link whether its signature is known to
/// verify.
pub struct Path {
    indices: ArrayVec<usize, 10>,
    links: Vec<SignatureProof>,
}

impl View for Path {
    type V = (Seq<usize>, Seq<SignatureProof>);

    closed spec fn view(&self) -> (Seq<usize>, Seq<SignatureProof>) {
        (positions(self.indices), self.links@)
    }
}

impl Path {
    /// Orders a chain by the names of subjects and issuers, from the first
    /// certificate up. Signatures count only where several certificates have the
    /// name of an issuer.
    pub fn build(chain: &[Cert<'_>]) -> (r: Self)
        requires
            0 < chain@.len() <= MAX_LEN,
            forall|i: int| 0 <= i < chain@.len() ==> hashable((#[trigger] chain@[i])@.tbs_der),
        ensures
            r@ == ordered(cert_views(chain@)),
    {
        let ghost certs = cert_views(chain@);
        let mut indices = new_positions();
        let mut links: Vec<SignatureProof> = Vec::new();
        push_position(&mut indices, 0);
        let mut current: usize = 0;
        proof {
            assert(positions(indices) =~= seq![0usize]);
            assert(links@ =~= Seq::empty());
        }
        loop
            invariant
                certs == cert_views(chain@),
                0 < chain@.len() <= MAX_LEN,
                forall|i: int| 0 <= i < chain@.len() ==> hashable((#[trigger] chain@[i])@.tbs_der),
                linked(certs, positions(indices)),
                links@.len() == positions(indices).len() - 1,
                current == positions(indices).last(),
                ordered(certs) == extended(certs, positions(indices), links@),
            decreases certs.len() - positions(indices).len(),
        {
            let ghost p = positions(indices);
            assert(p[p.len() - 1] < certs.len());
            let found = find_candidates(chain, &indices, current);
            proof {
                lemma_candidates(certs, p, 0);
                lemma_chosen(certs, p);
                assert forall|k: int| 0 <= k < positions(found).len() implies (#[trigger] positions(
                    found,
                )[k]) < chain@.len() by {
                    assert(candidates(certs, p, 0)[k] < certs.len());
                }
            }
            let next = choose_candidate(chain, current, &found);
            match next {
                None => return Self { indices, links },
                Some((i, proved)) => {
                    proof {
                        lemma_not_full(certs, p, i);
                        lemma_push_linked(certs, p, i);
                    }
                    push_position(&mut indices, i);
                    links.push(proved);
                    current = i;
                },
            }
        }
    }

    /// The certificates in order.
    pub fn indices(&self) -> (r: &[usize])
        ensures
            r@ == self@.0,
    {
        positions_slice(&self.indices)
    }

    /// How many certificates are in order.
    pub fn len(&self) -> (r: usize)
        ensures
            r == self@.0.len(),
    {
        positions_slice(&self.indices).len()
    }

    /// Whether the signature over a link is not known to verify.
    pub fn requires_signature_verification(&self, position: usize) -> (r: bool)
        ensures
            r == !(position < self@.1.len() && self@.1[position as int] == SignatureProof::Verified),
    {
        !(position < self.links.len() && self.links[position] == SignatureProof::Verified)
    }
}

fn is_used(indices: &ArrayVec<usize, 10>, i: usize) -> (r: bool)
    ensures
        r == positions(*indices).contains(i),
{
    let l = positions_slice(indices);
    let mut k: usize = 0;
    while k < l.len()
        invariant
            k <= l.len(),
            l@ == positions(*indices),
            forall|j: int| 0 <= j < k ==> l@[j] != i,
        decreases l.len() - k,
    {
        if l[k] == i {
            assert(positions(*indices)[k as int] == i);
            return true;
        }
        k = k + 1;
    }
    false
}

fn find_candidates(chain: &[Cert<'_>], indices: &ArrayVec<usize, 10>, current: usize) -> (r: ArrayVec<
    usize,
    10,
>)
    requires
        chain@.len() <= MAX_LEN,
        current < chain@.len(),
        positions(*indices).len() > 0,
        current == positions(*indices).last(),
    ensures
        positions(r) == candidates(cert_views(chain@), positions(*indices), 0),
{
    let ghost certs = cert_views(chain@);
    let ghost p = positions(*indices);
    let mut out = new_positions();
    let issuer = chain[current].tbs.names.issuer.as_der();
    assert(certs[current as int] == chain@[current as int]@);
    let mut i: usize = 0;
    assert(positions(out) + candidates(certs, p, 0) =~= candidates(certs, p, 0));
    while i < chain.len()
        invariant
            i <= chain.len(),
            chain@.len() <= MAX_LEN,
            certs == cert_views(chain@),
            p == positions(*indices),
            issuer@ == certs[p.last() as int].tbs.issuer,
            positions(out).len() <= i,
            positions(out) + candidates(certs, p, i as int) == candidates(certs, p, 0),
        decreases chain.len() - i,
    {
        assert(certs[i as int] == chain@[i as int]@);
        let ghost before = positions(out);
        let ghost rest = candidates(certs, p, i + 1);
        if !is_used(indices, i) && bytes_eq(chain[i].tbs.names.subject.as_der(), issuer) {
            push_position(&mut out, i);
            assert(before + (seq![i] + rest) =~= positions(out) + rest);
        }
        i = i + 1;
    }
    assert(positions(out) + Seq::empty() =~= positions(out));
    out
}

fn choose_candidate(chain: &[Cert<'_>], current: usize, found: &ArrayVec<usize, 10>) -> (r: Option<
    (usize, SignatureProof),
>)
    requires
        current < chain@.len(),
        hashable(chain@[current as int]@.tbs_der),
        forall|k: int| 0 <= k < positions(*found).len() ==> (#[trigger] positions(*found)[k]) < chain@.len(),
    ensures
        r == {
            let certs = cert_views(chain@);
            let l = positions(*found);
            if l.len() == 0 {
                None
            } else if l.len() == 1 {
                Some((l[0], SignatureProof::NeedsVerification))
            } else {
                match first_verifying(certs, current as int, l, 0) {
                    Some(i) => Some((i, SignatureProof::Verified)),
                    None => Some((l[0], SignatureProof::NeedsVerification)),
                }
            }
        },
{
    let ghost certs = cert_views(chain@);
    let l = positions_slice(found);
    if l.len() == 0 {
        return None;
    }
    if l.len() == 1 {
        return Some((l[0], SignatureProof::NeedsVerification));
    }
    let mut k: usize = 0;
    while k < l.len()
        invariant
            k <= l.len(),
            l@ == positions(*found),
            l@.len() > 1,
            certs == cert_views(chain@),
            current < chain@.len(),
            hashable(chain@[current as int]@.tbs_der),
            forall|k: int|
                0 <= k < positions(*found).len() ==> (#[trigger] positions(*found)[k]) < chain@.len(),
            first_verifying(certs, current as int, l@, 0) == first_verifying(
                certs,
                current as int,
                l@,
                k as int,
            ),
        decreases l.len() - k,
    {
        let i: usize = l[k];
        assert(positions(*found)[k as int] == i);
        assert(certs[i as int] == chain@[i as int]@);
        assert(certs[current as int] == chain@[current as int]@);
        if chain[current].verify_signature(&chain[i].tbs.spki).is_ok() {
            return Some((i, SignatureProof::Verified));
        }
        k = k + 1;
    }
    Some((l[0], SignatureProof::NeedsVerification))
}

} // verus!
