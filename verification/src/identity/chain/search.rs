//! The search for a path from the end entity to a trust anchor.

use o3::collections::fixed::array::CopyInline;
use vstd::prelude::*;

use crate::identity::cert::dn::same_name;
use crate::identity::cert::signed_by;
use crate::identity::chain::extensions::{
    issuer_verdict, leaf_verdict, lemma_constraints_of_set, lemma_verdict_of_set, profile_views, Profile,
    ProfileView,
};
use crate::identity::chain::prepared::{law_preparing_changes_no_verdict, lemma_prepared_of_set, prepared_of};
use crate::identity::chain::{
    anchor_views, anchors_verdict, constraints_in, match_verdict, path_certs, prepared,
    AnchorConstraintsView, AnchorMatchView, AnchorView, Chain, Error, PathCert, PathCertView,
    TrustAnchor, MAX_LEN,
};
use crate::identity::time::UnixTime;

verus! {

/// What a search is over: certificates, trust anchors, and the time.
pub struct SearchView {
    pub certs: Seq<PathCertView>,
    pub anchors: Seq<AnchorView>,
    pub now: i64,
}

/// What the certificates of a path say.
pub open spec fn profiles(v: SearchView, path: Seq<u8>) -> Seq<ProfileView> {
    path.map_values(|i: u8| prepared(v.certs[i as int], v.now)->Ok_0)
}

/// Whether a trust anchor issued the last certificate of a path and its
/// constraints allow the path.
#[verifier::opaque]
pub open spec fn anchored(v: SearchView, path: Seq<u8>) -> Result<bool, Error> {
    match anchors_verdict(v.anchors, v.certs[path.last() as int], 0) {
        Err(e) => Err(e),
        Ok(None) => Ok(false),
        Ok(Some(None)) => Ok(true),
        Ok(Some(Some(c))) => match match_verdict(c, profiles(v, path)) {
            Ok(_) => Ok(true),
            Err(e) => Err(e),
        },
    }
}

/// Whether a certificate that is not on a path has the name of the issuer of the
/// last one that is.
#[verifier::opaque]
pub open spec fn is_candidate(v: SearchView, path: Seq<u8>, i: int) -> bool {
    !path.contains(i as u8) && same_name(v.certs[i].subject, v.certs[path.last() as int].issuer)
}

/// What is wrong with a certificate as the next one of a path, if anything.
#[verifier::opaque]
pub open spec fn link(v: SearchView, path: Seq<u8>, i: int) -> Result<(), Error> {
    let subject = v.certs[path.last() as int];
    match prepared(v.certs[i], v.now) {
        Err(e) => Err(e),
        Ok(p) => match issuer_verdict(p, profiles(v, path)) {
            Err(e) => Err(e),
            Ok(_) => match signed_by(subject.tbs_der, subject.algorithm, subject.signature, v.certs[i].spki) {
                Err(e) => Err(Error::Verify(e)),
                Ok(_) => Ok(()),
            },
        },
    }
}

/// The first of two failures.
pub open spec fn first(f: Option<Error>, e: Error) -> Option<Error> {
    match f {
        Some(_) => f,
        None => Some(e),
    }
}

/// The next certificate from `i` on that can follow a path, and the first failure
/// so far.
pub open spec fn next_link(v: SearchView, path: Seq<u8>, i: int, f: Option<Error>) -> (
    Option<int>,
    Option<Error>,
)
    decreases v.certs.len() - i,
{
    if i >= v.certs.len() {
        (None, f)
    } else if !is_candidate(v, path, i) {
        next_link(v, path, i + 1, f)
    } else {
        match link(v, path, i) {
            Ok(_) => (Some(i), f),
            Err(e) => next_link(v, path, i + 1, first(f, e)),
        }
    }
}

/// What it means that no certificate can follow a path.
pub open spec fn dead_end(v: SearchView, path: Seq<u8>) -> Error {
    if path.len() == v.certs.len() {
        Error::NoTrustAnchor
    } else {
        Error::IssuerSubjectMismatch
    }
}

/// Whether a path, extended by the certificates from `i` on that can follow it,
/// reaches a trust anchor, and the first failure so far.
pub open spec fn follow(v: SearchView, path: Seq<u8>, i: int, f: Option<Error>) -> (bool, Option<Error>)
    decreases v.certs.len() - path.len(), v.certs.len() - i,
{
    let (next, g) = next_link(v, path, i, f);
    match next {
        None => (false, first(g, dead_end(v, path))),
        Some(j) => if path.len() >= v.certs.len() || j < i || j >= v.certs.len() {
            (false, first(g, dead_end(v, path)))
        } else {
            match visit(v, path.push(j as u8), g) {
                (true, h) => (true, h),
                (false, h) => follow(v, path, j + 1, h),
            }
        },
    }
}

/// Whether a path reaches a trust anchor, and the first failure so far.
pub open spec fn visit(v: SearchView, path: Seq<u8>, f: Option<Error>) -> (bool, Option<Error>)
    decreases v.certs.len() - path.len(), v.certs.len() + 1,
    when 0 < path.len() <= v.certs.len()
{
    match anchored(v, path) {
        Ok(true) => (true, f),
        Ok(false) => follow(v, path, 1, f),
        Err(e) => follow(v, path, 1, first(f, e)),
    }
}

/// What is wrong with certificates as a chain for a host, if anything: the first
/// failure of a search, depth first, over the paths from the first certificate.
#[verifier::opaque]
pub open spec fn search_verdict(v: SearchView, host: Seq<u8>) -> Result<(), Error> {
    match prepared(v.certs[0], v.now) {
        Err(e) => Err(e),
        Ok(p) => match leaf_verdict(p, host) {
            Err(e) => Err(e),
            Ok(_) => match visit(v, seq![0u8], None) {
                (true, _) => Ok(()),
                (false, Some(e)) => Err(e),
                (false, None) => Err(Error::NoTrustAnchor),
            },
        },
    }
}

/// The certificates of a path as bits: certificate `i` as bit `i`.
pub open spec fn mask(path: Seq<u8>) -> u16
    decreases path.len(),
{
    if path.len() == 0 {
        0
    } else {
        mask(path.drop_last()) | (1u16 << (path.last() as u16))
    }
}

/// What the rest of a search depends on: the last certificate of a path, and which
/// ones are on it.
pub open spec fn state(path: Seq<u8>) -> (u8, u16) {
    (path.last(), mask(path))
}

/// Whether a path is one of certificates that differ, each readable and valid.
pub open spec fn is_path(v: SearchView, path: Seq<u8>) -> bool {
    &&& 0 < path.len() <= v.certs.len() <= MAX_LEN
    &&& path.no_duplicates()
    &&& forall|k: int| 0 <= k < path.len() ==> (#[trigger] path[k]) < v.certs.len()
    &&& forall|k: int|
        0 <= k < path.len() ==> prepared(v.certs[(#[trigger] path[k]) as int], v.now) is Ok
}

proof fn lemma_bit(m: u16, i: u16, j: u16)
    by (bit_vector)
    requires
        i < 16,
        j < 16,
    ensures
        ((m | (1u16 << i)) & (1u16 << j) != 0) == (m & (1u16 << j) != 0 || i == j),
{
}

proof fn lemma_clear_bit(m: u16, i: u16, j: u16)
    by (bit_vector)
    requires
        i < 16,
        j < 16,
    ensures
        ((m & !(1u16 << i)) & (1u16 << j) != 0) == (m & (1u16 << j) != 0 && i != j),
{
}

proof fn lemma_no_bit(j: u16)
    by (bit_vector)
    requires
        j < 16,
    ensures
        0u16 & (1u16 << j) == 0,
{
}

proof fn lemma_mask_range(m: u16, i: u16)
    by (bit_vector)
    requires
        i < 10,
        m < 1024,
    ensures
        m | (1u16 << i) < 1024,
{
}

/// A certificate is on a path where its bit is set.
proof fn lemma_mask(path: Seq<u8>, j: u8)
    requires
        j < 10,
        forall|k: int| 0 <= k < path.len() ==> (#[trigger] path[k]) < 10,
    ensures
        (mask(path) & (1u16 << (j as u16)) != 0) == path.contains(j),
        mask(path) < 1024,
    decreases path.len(),
{
    if path.len() == 0 {
        lemma_no_bit(j as u16);
    } else {
        let p = path.drop_last();
        assert forall|k: int| 0 <= k < p.len() implies (#[trigger] p[k]) < 10 by {
            assert(p[k] == path[k]);
        }
        lemma_mask(p, j);
        assert(path[path.len() - 1] < 10);
        lemma_bit(mask(p), path.last() as u16, j as u16);
        lemma_mask_range(mask(p), path.last() as u16);
        if p.contains(j) {
            let k = choose|k: int| 0 <= k < p.len() && p[k] == j;
            assert(path[k] == j);
        }
        if path.contains(j) && path.last() != j {
            let k = choose|k: int| 0 <= k < path.len() && path[k] == j;
            assert(p[k] == j);
        }
    }
}

/// Paths with the same bits have the same certificates.
proof fn lemma_same_mask(v: SearchView, p: Seq<u8>, q: Seq<u8>)
    requires
        is_path(v, p),
        is_path(v, q),
        mask(p) == mask(q),
    ensures
        p.len() == q.len(),
        forall|j: u8| #[trigger] p.contains(j) == q.contains(j),
{
    assert forall|j: u8| #[trigger] p.contains(j) == q.contains(j) by {
        if j < 10 {
            lemma_mask(p, j);
            lemma_mask(q, j);
        } else {
            if p.contains(j) {
                let k = choose|k: int| 0 <= k < p.len() && p[k] == j;
                assert(p[k] < 10);
            }
            if q.contains(j) {
                let k = choose|k: int| 0 <= k < q.len() && q[k] == j;
                assert(q[k] < 10);
            }
        }
    }
    p.unique_seq_to_set();
    q.unique_seq_to_set();
    assert(p.to_set() =~= q.to_set()) by {
        assert forall|j: u8| p.to_set().contains(j) == q.to_set().contains(j) by {
            assert(p.contains(j) == q.contains(j));
        }
    }
}

/// Whether two paths end alike and have the same certificates.
spec fn alike(p: Seq<u8>, q: Seq<u8>) -> bool {
    &&& p.len() == q.len()
    &&& p.last() == q.last()
    &&& forall|j: u8| #[trigger] p.contains(j) == q.contains(j)
}

proof fn lemma_alike_push(p: Seq<u8>, q: Seq<u8>, j: u8)
    requires
        alike(p, q),
    ensures
        alike(p.push(j), q.push(j)),
{
    assert forall|k: u8| #[trigger] p.push(j).contains(k) == q.push(j).contains(k) by {
        lemma_contains_push(p, j, k);
        lemma_contains_push(q, j, k);
    }
}

proof fn lemma_contains_push(p: Seq<u8>, j: u8, k: u8)
    ensures
        p.push(j).contains(k) == (p.contains(k) || j == k),
{
    if p.contains(k) {
        let i = choose|i: int| 0 <= i < p.len() && p[i] == k;
        assert(p.push(j)[i] == k);
    }
    if j == k {
        assert(p.push(j)[p.len() as int] == k);
    }
}

proof fn lemma_alike_profiles(v: SearchView, p: Seq<u8>, q: Seq<u8>)
    requires
        alike(p, q),
    ensures
        forall|i: int| 0 <= i < p.len() ==> profiles(v, q).contains(#[trigger] profiles(v, p)[i]),
{
    assert forall|i: int| 0 <= i < p.len() implies profiles(v, q).contains(
        #[trigger] profiles(v, p)[i],
    ) by {
        assert(p.contains(p[i]));
        assert(q.contains(p[i]));
        let k = choose|k: int| 0 <= k < q.len() && q[k] == p[i];
        assert(profiles(v, q)[k] == profiles(v, p)[i]);
    }
}

/// What can follow a path depends on where it ends and which certificates it has.
proof fn lemma_alike_links(v: SearchView, p: Seq<u8>, q: Seq<u8>)
    requires
        p.len() > 0,
        alike(p, q),
    ensures
        anchored(v, p) == anchored(v, q),
        forall|i: int| #[trigger] is_candidate(v, p, i) == is_candidate(v, q, i),
        forall|i: int| #[trigger] link(v, p, i) == link(v, q, i),
{
    reveal(anchored);
    reveal(is_candidate);
    reveal(link);
    lemma_alike_profiles(v, p, q);
    lemma_alike_profiles(v, q, p);
    let a = profiles(v, p);
    let b = profiles(v, q);
    assert forall|c: AnchorMatchView| #[trigger] match_verdict(c, a) == match_verdict(c, b) by {
        match c {
            AnchorMatchView::Parsed(n) => lemma_constraints_of_set(n, a, b),
            AnchorMatchView::Prepared(p) => lemma_prepared_of_set(p, a, b),
        }
    }
    assert forall|i: int| #[trigger] link(v, p, i) == link(v, q, i) by {
        if let Ok(x) = prepared(v.certs[i], v.now) {
            lemma_verdict_of_set(x, a, b);
        }
    }
}

/// What the next link is does not depend on the failures before it, and a failure
/// that was recorded stays.
proof fn lemma_next_link(v: SearchView, path: Seq<u8>, i: int, f: Option<Error>, g: Option<Error>)
    ensures
        next_link(v, path, i, f).0 == next_link(v, path, i, g).0,
        f is Some ==> next_link(v, path, i, f).1 == f,
        match next_link(v, path, i, f).0 {
            Some(j) => i <= j < v.certs.len() && is_candidate(v, path, j) && link(v, path, j) is Ok,
            None => true,
        },
    decreases v.certs.len() - i,
{
    if i < v.certs.len() {
        if !is_candidate(v, path, i) {
            lemma_next_link(v, path, i + 1, f, g);
        } else if let Err(e) = link(v, path, i) {
            lemma_next_link(v, path, i + 1, first(f, e), first(g, e));
        }
    }
}

proof fn lemma_alike_next(v: SearchView, p: Seq<u8>, q: Seq<u8>, i: int, f: Option<Error>)
    requires
        p.len() > 0,
        alike(p, q),
    ensures
        next_link(v, p, i, f) == next_link(v, q, i, f),
    decreases v.certs.len() - i,
{
    lemma_alike_links(v, p, q);
    if i < v.certs.len() {
        assert(is_candidate(v, p, i) == is_candidate(v, q, i));
        assert(link(v, p, i) == link(v, q, i));
        if !is_candidate(v, p, i) {
            lemma_alike_next(v, p, q, i + 1, f);
        } else if let Err(e) = link(v, p, i) {
            lemma_alike_next(v, p, q, i + 1, first(f, e));
        }
    }
}

/// Whether a path reaches a trust anchor depends on where it ends and which
/// certificates it has.
proof fn lemma_alike_visit(v: SearchView, p: Seq<u8>, q: Seq<u8>, f: Option<Error>, g: Option<Error>)
    requires
        0 < p.len() <= v.certs.len(),
        alike(p, q),
    ensures
        visit(v, p, f).0 == visit(v, q, g).0,
    decreases v.certs.len() - p.len(), v.certs.len() + 1,
{
    lemma_alike_links(v, p, q);
    match anchored(v, p) {
        Ok(true) => {},
        Ok(false) => lemma_alike_follow(v, p, q, 1, f, g),
        Err(e) => lemma_alike_follow(v, p, q, 1, first(f, e), first(g, e)),
    }
}

proof fn lemma_alike_follow(
    v: SearchView,
    p: Seq<u8>,
    q: Seq<u8>,
    i: int,
    f: Option<Error>,
    g: Option<Error>,
)
    requires
        0 < p.len() <= v.certs.len(),
        alike(p, q),
    ensures
        follow(v, p, i, f).0 == follow(v, q, i, g).0,
    decreases v.certs.len() - p.len(), v.certs.len() - i,
{
    lemma_next_link(v, p, i, f, g);
    lemma_alike_next(v, p, q, i, g);
    if let Some(j) = next_link(v, p, i, f).0 {
        if p.len() < v.certs.len() {
            let f1 = next_link(v, p, i, f).1;
            let g1 = next_link(v, q, i, g).1;
            lemma_alike_push(p, q, j as u8);
            lemma_alike_visit(v, p.push(j as u8), q.push(j as u8), f1, g1);
            let f2 = visit(v, p.push(j as u8), f1).1;
            let g2 = visit(v, q.push(j as u8), g1).1;
            lemma_alike_follow(v, p, q, j + 1, f2, g2);
        }
    }
}

/// A failure that was recorded stays, and a search that fails records one.
proof fn lemma_visit_failure(v: SearchView, p: Seq<u8>, f: Option<Error>)
    requires
        0 < p.len() <= v.certs.len(),
    ensures
        f is Some ==> visit(v, p, f).1 == f,
        !visit(v, p, f).0 ==> visit(v, p, f).1 is Some,
    decreases v.certs.len() - p.len(), v.certs.len() + 1,
{
    match anchored(v, p) {
        Ok(true) => {},
        Ok(false) => lemma_follow_failure(v, p, 1, f),
        Err(e) => lemma_follow_failure(v, p, 1, first(f, e)),
    }
}

proof fn lemma_follow_failure(v: SearchView, p: Seq<u8>, i: int, f: Option<Error>)
    requires
        0 < p.len() <= v.certs.len(),
    ensures
        f is Some ==> follow(v, p, i, f).1 == f,
        !follow(v, p, i, f).0 ==> follow(v, p, i, f).1 is Some,
    decreases v.certs.len() - p.len(), v.certs.len() - i,
{
    lemma_next_link(v, p, i, f, f);
    let (next, g) = next_link(v, p, i, f);
    if let Some(j) = next {
        if p.len() < v.certs.len() {
            lemma_visit_failure(v, p.push(j as u8), g);
            lemma_follow_failure(v, p, j + 1, visit(v, p.push(j as u8), g).1);
        }
    }
}

/// Whether `path` is a way from the end entity to a trust anchor: every
/// certificate on it can follow the ones before it, and an anchor issued the last.
pub open spec fn reaches_anchor(v: SearchView, path: Seq<u8>) -> bool {
    &&& 0 < path.len() <= v.certs.len()
    &&& path[0] == 0
    &&& forall|k: int|
        #![trigger path[k]]
        0 < k < path.len() ==> path[k] > 0 && path[k] < v.certs.len() && is_candidate(
            v,
            path.take(k),
            path[k] as int,
        ) && link(v, path.take(k), path[k] as int) is Ok
    &&& anchored(v, path) == Ok::<bool, Error>(true)
}

/// The search finds a path exactly where there is one.
pub proof fn law_search_complete(v: SearchView)
    requires
        0 < v.certs.len() <= MAX_LEN,
    ensures
        visit(v, seq![0u8], None).0 == exists|path: Seq<u8>| #[trigger] reaches_anchor(v, path),
{
    let start = seq![0u8];
    if visit(v, start, None).0 {
        lemma_visit_sound(v, start, None);
    }
    if exists|path: Seq<u8>| #[trigger] reaches_anchor(v, path) {
        let path = choose|path: Seq<u8>| #[trigger] reaches_anchor(v, path);
        assert(path.take(1) =~= start);
        lemma_visit_complete(v, path, 1, None);
    }
}

/// What holds of a path before its end is anchored.
spec fn partial(v: SearchView, path: Seq<u8>) -> bool {
    &&& 0 < path.len() <= v.certs.len()
    &&& path[0] == 0
    &&& forall|k: int|
        #![trigger path[k]]
        0 < k < path.len() ==> path[k] > 0 && path[k] < v.certs.len() && is_candidate(
            v,
            path.take(k),
            path[k] as int,
        ) && link(v, path.take(k), path[k] as int) is Ok
}

proof fn lemma_partial_push(v: SearchView, p: Seq<u8>, j: int)
    requires
        partial(v, p),
        p.len() < v.certs.len() <= MAX_LEN,
        1 <= j < v.certs.len(),
        is_candidate(v, p, j),
        link(v, p, j) is Ok,
    ensures
        partial(v, p.push(j as u8)),
{
    let q = p.push(j as u8);
    assert forall|k: int|
        #![trigger q[k]]
        0 < k < q.len() implies q[k] > 0 && q[k] < v.certs.len() && is_candidate(
        v,
        q.take(k),
        q[k] as int,
    ) && link(v, q.take(k), q[k] as int) is Ok by {
        if k < p.len() {
            assert(q[k] == p[k]);
            assert(q.take(k) =~= p.take(k));
        } else {
            assert(q.take(k) =~= p);
        }
    }
}

proof fn lemma_visit_sound(v: SearchView, p: Seq<u8>, f: Option<Error>)
    requires
        partial(v, p),
        v.certs.len() <= MAX_LEN,
        visit(v, p, f).0,
    ensures
        exists|path: Seq<u8>| #[trigger] reaches_anchor(v, path),
    decreases v.certs.len() - p.len(), v.certs.len() + 1,
{
    match anchored(v, p) {
        Ok(true) => {
            assert(reaches_anchor(v, p));
        },
        Ok(false) => lemma_follow_sound(v, p, 1, f),
        Err(e) => lemma_follow_sound(v, p, 1, first(f, e)),
    }
}

proof fn lemma_follow_sound(v: SearchView, p: Seq<u8>, i: int, f: Option<Error>)
    requires
        partial(v, p),
        v.certs.len() <= MAX_LEN,
        i >= 1,
        follow(v, p, i, f).0,
    ensures
        exists|path: Seq<u8>| #[trigger] reaches_anchor(v, path),
    decreases v.certs.len() - p.len(), v.certs.len() - i,
{
    lemma_next_link(v, p, i, f, f);
    let (next, g) = next_link(v, p, i, f);
    if let Some(j) = next {
        if p.len() < v.certs.len() {
            lemma_partial_push(v, p, j);
            if visit(v, p.push(j as u8), g).0 {
                lemma_visit_sound(v, p.push(j as u8), g);
            } else {
                lemma_follow_sound(v, p, j + 1, visit(v, p.push(j as u8), g).1);
            }
        }
    }
}

proof fn lemma_visit_complete(v: SearchView, path: Seq<u8>, n: int, f: Option<Error>)
    requires
        reaches_anchor(v, path),
        v.certs.len() <= MAX_LEN,
        1 <= n <= path.len(),
    ensures
        visit(v, path.take(n), f).0,
    decreases path.len() - n,
{
    let p = path.take(n);
    if n == path.len() {
        assert(p =~= path);
    } else {
        let j = path[n] as int;
        assert(path.take(n + 1) =~= p.push(j as u8));
        assert forall|g: Option<Error>| #[trigger] visit(v, p.push(j as u8), g).0 by {
            lemma_visit_complete(v, path, n + 1, g);
        }
        match anchored(v, p) {
            Ok(true) => {},
            Ok(false) => lemma_follow_complete(v, p, 1, j, f),
            Err(e) => lemma_follow_complete(v, p, 1, j, first(f, e)),
        }
    }
}

proof fn lemma_follow_complete(v: SearchView, p: Seq<u8>, i: int, j: int, f: Option<Error>)
    requires
        0 < p.len() < v.certs.len() <= MAX_LEN,
        i <= j < v.certs.len(),
        is_candidate(v, p, j),
        link(v, p, j) is Ok,
        forall|g: Option<Error>| #[trigger] visit(v, p.push(j as u8), g).0,
    ensures
        follow(v, p, i, f).0,
    decreases v.certs.len() - i,
{
    lemma_next_link(v, p, i, f, f);
    lemma_next_reaches(v, p, i, j, f);
    let (next, g) = next_link(v, p, i, f);
    let k = next->0;
    if k < j {
        let h = visit(v, p.push(k as u8), g).1;
        lemma_follow_complete(v, p, k + 1, j, h);
    }
}

proof fn lemma_next_reaches(v: SearchView, p: Seq<u8>, i: int, j: int, f: Option<Error>)
    requires
        i <= j < v.certs.len(),
        is_candidate(v, p, j),
        link(v, p, j) is Ok,
    ensures
        next_link(v, p, i, f).0 matches Some(k) && k <= j,
    decreases v.certs.len() - i,
{
    if i < j {
        if !is_candidate(v, p, i) {
            lemma_next_reaches(v, p, i + 1, j, f);
        } else if let Err(e) = link(v, p, i) {
            lemma_next_reaches(v, p, i + 1, j, first(f, e));
        }
    }
}

/// A search with one of its anchors' constraints read and sorted beforehand.
pub open spec fn with_prepared(v: SearchView, k: int) -> SearchView {
    let a = v.anchors[k];
    let c = constraints_in(a.constraints->NameConstraints_0)->Ok_0;
    SearchView {
        anchors: v.anchors.update(
            k,
            AnchorView { constraints: AnchorConstraintsView::Prepared(prepared_of(c)), ..a },
        ),
        ..v
    }
}

/// Whether an anchor's constraints are given by their encoding and can be read.
pub open spec fn preparable(v: SearchView, k: int) -> bool {
    &&& 0 <= k < v.anchors.len()
    &&& v.anchors[k].constraints is NameConstraints
    &&& constraints_in(v.anchors[k].constraints->NameConstraints_0) is Ok
}

/// Reading an anchor's constraints beforehand changes no verdict on a chain.
pub proof fn law_prepared_anchors_change_no_verdict(v: SearchView, k: int, host: Seq<u8>)
    requires
        preparable(v, k),
        v.certs.len() > 0,
    ensures
        search_verdict(with_prepared(v, k), host) == search_verdict(v, host),
{
    reveal(search_verdict);
    lemma_prepared_visit(v, k, seq![0u8], None);
}

proof fn lemma_prepared_visit(v: SearchView, k: int, path: Seq<u8>, f: Option<Error>)
    requires
        preparable(v, k),
        0 < path.len() <= v.certs.len(),
    ensures
        visit(with_prepared(v, k), path, f) == visit(v, path, f),
    decreases v.certs.len() - path.len(), v.certs.len() + 1,
{
    lemma_prepared_anchored(v, k, path);
    match anchored(v, path) {
        Ok(true) => {},
        Ok(false) => lemma_prepared_follow(v, k, path, 1, f),
        Err(e) => lemma_prepared_follow(v, k, path, 1, first(f, e)),
    }
}

proof fn lemma_prepared_follow(v: SearchView, k: int, path: Seq<u8>, i: int, f: Option<Error>)
    requires
        preparable(v, k),
        0 < path.len() <= v.certs.len(),
    ensures
        follow(with_prepared(v, k), path, i, f) == follow(v, path, i, f),
    decreases v.certs.len() - path.len(), v.certs.len() - i,
{
    lemma_prepared_next(v, k, path, i, f);
    let (next, g) = next_link(v, path, i, f);
    if let Some(j) = next {
        if !(path.len() >= v.certs.len() || j < i || j >= v.certs.len()) {
            lemma_prepared_visit(v, k, path.push(j as u8), g);
            let (found, h) = visit(v, path.push(j as u8), g);
            if !found {
                lemma_prepared_follow(v, k, path, j + 1, h);
            }
        }
    }
}

proof fn lemma_prepared_next(v: SearchView, k: int, path: Seq<u8>, i: int, f: Option<Error>)
    ensures
        next_link(with_prepared(v, k), path, i, f) == next_link(v, path, i, f),
    decreases v.certs.len() - i,
{
    reveal(is_candidate);
    reveal(link);
    let w = with_prepared(v, k);
    assert(profiles(w, path) =~= profiles(v, path));
    if i < v.certs.len() {
        assert(is_candidate(w, path, i) == is_candidate(v, path, i));
        assert(link(w, path, i) == link(v, path, i));
        if !is_candidate(v, path, i) {
            lemma_prepared_next(v, k, path, i + 1, f);
        } else if let Err(e) = link(v, path, i) {
            lemma_prepared_next(v, k, path, i + 1, first(f, e));
        }
    }
}

proof fn lemma_prepared_anchored(v: SearchView, k: int, path: Seq<u8>)
    requires
        preparable(v, k),
    ensures
        anchored(with_prepared(v, k), path) == anchored(v, path),
{
    reveal(anchored);
    let w = with_prepared(v, k);
    let c = constraints_in(v.anchors[k].constraints->NameConstraints_0)->Ok_0;
    assert(profiles(w, path) =~= profiles(v, path));
    law_preparing_changes_no_verdict(c, profiles(v, path));
    lemma_prepared_verdict(v, k, v.certs[path.last() as int], 0);
}

proof fn lemma_prepared_verdict(v: SearchView, k: int, cert: PathCertView, i: int)
    requires
        preparable(v, k),
        0 <= i,
    ensures
        ({
            let c = constraints_in(v.anchors[k].constraints->NameConstraints_0)->Ok_0;
            let a = anchors_verdict(v.anchors, cert, i);
            let b = anchors_verdict(with_prepared(v, k).anchors, cert, i);
            a == b || (a == Ok::<Option<Option<AnchorMatchView>>, Error>(Some(Some(AnchorMatchView::Parsed(c))))
                && b == Ok::<Option<Option<AnchorMatchView>>, Error>(
                Some(Some(AnchorMatchView::Prepared(prepared_of(c)))),
            ))
        }),
    decreases v.anchors.len() - i,
{
    if i < v.anchors.len() {
        lemma_prepared_verdict(v, k, cert, i + 1);
        assert(i != k ==> with_prepared(v, k).anchors[i] == v.anchors[i]);
    }
}

/// A chain that is found valid has a path to a trust anchor on which the end
/// entity is that of the host, and every certificate is valid at the time, can be
/// read, and may sign for the ones before it.
pub proof fn law_valid_chain(v: SearchView, host: Seq<u8>)
    requires
        0 < v.certs.len() <= MAX_LEN,
        search_verdict(v, host) is Ok,
    ensures
        leaf_verdict(prepared(v.certs[0], v.now)->Ok_0, host) is Ok,
        exists|path: Seq<u8>|
            #[trigger] reaches_anchor(v, path) && forall|k: int|
                0 <= k < path.len() ==> prepared(v.certs[(#[trigger] path[k]) as int], v.now) is Ok,
{
    reveal(search_verdict);
    law_search_complete(v);
    let path = choose|path: Seq<u8>| #[trigger] reaches_anchor(v, path);
    assert forall|k: int| 0 <= k < path.len() implies prepared(
        v.certs[(#[trigger] path[k]) as int],
        v.now,
    ) is Ok by {
        if k > 0 {
            assert(link(v, path.take(k), path[k] as int) is Ok);
            reveal(link);
        }
    }
}

#[verifier::external_type_specification]
#[verifier::external_body]
#[verifier::reject_recursive_types(T)]
pub struct ExCopyInline<T: Copy, const N: usize>(CopyInline<T, N>);

/// The certificates on a stack, the end entity's first.
pub uninterp spec fn stacked(v: CopyInline<u8, 10>) -> Seq<u8>;

/// `CopyInline::new`: an empty stack.
#[verifier::external_body]
fn new_stack() -> (r: CopyInline<u8, 10>)
    ensures
        stacked(r) == Seq::<u8>::empty(),
{
    CopyInline::new()
}

/// `CopyInline::push`: appends where the stack has fewer than its capacity of
/// entries, and otherwise leaves it as it is.
#[verifier::external_body]
fn push_index(v: &mut CopyInline<u8, 10>, i: u8) -> (r: bool)
    ensures
        r == (stacked(*old(v)).len() < 10),
        r ==> stacked(*final(v)) == stacked(*old(v)).push(i),
        !r ==> *final(v) == *old(v),
{
    v.push(i).is_ok()
}

/// `CopyInline::pop`: takes the last entry off, where there is one.
#[verifier::external_body]
fn pop_index(v: &mut CopyInline<u8, 10>) -> (r: Option<u8>)
    ensures
        stacked(*old(v)).len() > 0 ==> r == Some(stacked(*old(v)).last()) && stacked(*final(v)) == stacked(
            *old(v),
        ).drop_last(),
        stacked(*old(v)).len() == 0 ==> r is None && *final(v) == *old(v),
{
    v.pop()
}

/// `CopyInline::as_slice`: the entries in order.
#[verifier::external_body]
fn stack_slice(v: &CopyInline<u8, 10>) -> (r: &[u8])
    ensures
        r@ == stacked(*v),
{
    v.as_slice()
}

/// The states that a search has come to.
struct Seen {
    table: Vec<bool>,
}

impl Seen {
    spec fn has(self, s: (u8, u16)) -> bool {
        s.0 < 10 && s.1 < 1024 && self.table@[s.0 * 1024 + s.1]
    }

    spec fn sized(self) -> bool {
        self.table@.len() == 10240
    }

    fn new() -> (r: Self)
        ensures
            r.sized(),
            forall|s: (u8, u16)| !#[trigger] r.has(s),
    {
        let mut table: Vec<bool> = Vec::new();
        let mut i: usize = 0;
        while i < 10240
            invariant
                i <= 10240,
                table@.len() == i,
                forall|j: int| 0 <= j < i ==> !#[trigger] table@[j],
            decreases 10240 - i,
        {
            table.push(false);
            i = i + 1;
        }
        Self { table }
    }

    /// Puts a state in, and tells whether it is new.
    fn insert(&mut self, subject: u8, used: u16) -> (fresh: bool)
        requires
            old(self).sized(),
            subject < 10,
            used < 1024,
        ensures
            final(self).sized(),
            fresh == !old(self).has((subject, used)),
            forall|s: (u8, u16)| #[trigger]
                final(self).has(s) == (old(self).has(s) || s == (subject, used)),
    {
        let i: usize = subject as usize * 1024 + used as usize;
        let fresh = !self.table[i];
        let ghost before = self.table@;
        self.table.set(i, true);
        proof {
            assert forall|s: (u8, u16)| #[trigger]
                self.has(s) == (old(self).has(s) || s == (subject, used)) by {
                if s.0 < 10 && s.1 < 1024 {
                    let k = s.0 * 1024 + s.1;
                    assert(k == i ==> s.0 == subject && s.1 == used);
                }
            }
        }
        fresh
    }
}

/// Whether the search need not go on from a state: no path in that state reaches
/// a trust anchor.
spec fn is_dead(v: SearchView, s: (u8, u16)) -> bool {
    forall|q: Seq<u8>| is_path(v, q) && #[trigger] state(q) == s ==> !visit(v, q, None).0
}

/// Whether a state is that of one of the first `n` prefixes of a path.
spec fn in_progress(path: Seq<u8>, n: int, s: (u8, u16)) -> bool {
    exists|k: int| 1 <= k <= n && #[trigger] state(path.take(k)) == s
}

/// Signatures that were verified before: bit `i` of entry `s` for that of
/// certificate `s` under the key of certificate `i`.
struct SignatureCache {
    checked: Vec<u16>,
    valid: Vec<u16>,
}

impl SignatureCache {
    spec fn knows(self, s: int, i: int) -> bool {
        self.checked@[s] & (1u16 << (i as u16)) != 0
    }

    spec fn holds(self, s: int, i: int) -> bool {
        self.valid@[s] & (1u16 << (i as u16)) != 0
    }

    fn new() -> (r: Self)
        ensures
            r.checked@.len() == 10,
            r.valid@.len() == 10,
            forall|s: int, i: int| 0 <= s < 10 && 0 <= i < 10 ==> !#[trigger] r.knows(s, i),
    {
        let checked: Vec<u16> = vec![0, 0, 0, 0, 0, 0, 0, 0, 0, 0];
        let valid: Vec<u16> = vec![0, 0, 0, 0, 0, 0, 0, 0, 0, 0];
        let r = Self { checked, valid };
        proof {
            assert forall|s: int, i: int| 0 <= s < 10 && 0 <= i < 10 implies !#[trigger] r.knows(s, i) by {
                lemma_no_bit(i as u16);
                assert(r.checked@[s] == 0);
            }
        }
        r
    }

    fn get(&self, subject: usize, issuer: usize) -> (r: Option<bool>)
        requires
            self.checked@.len() == 10,
            self.valid@.len() == 10,
            subject < 10,
            issuer < 10,
        ensures
            r == if self.knows(subject as int, issuer as int) {
                Some(self.holds(subject as int, issuer as int))
            } else {
                None
            },
    {
        let bit: u16 = 1u16 << (issuer as u16);
        if self.checked[subject] & bit != 0 {
            Some(self.valid[subject] & bit != 0)
        } else {
            None
        }
    }

    fn insert(&mut self, subject: usize, issuer: usize, valid: bool)
        requires
            old(self).checked@.len() == 10,
            old(self).valid@.len() == 10,
            subject < 10,
            issuer < 10,
            !old(self).knows(subject as int, issuer as int),
        ensures
            final(self).checked@.len() == 10,
            final(self).valid@.len() == 10,
            forall|s: int, i: int|
                0 <= s < 10 && 0 <= i < 10 ==> #[trigger] final(self).knows(s, i) == (old(self).knows(s, i)
                    || (s == subject && i == issuer)),
            forall|s: int, i: int|
                0 <= s < 10 && 0 <= i < 10 && !(s == subject && i == issuer) ==>
                    #[trigger] final(self).holds(s, i) == old(self).holds(s, i),
            final(self).holds(subject as int, issuer as int) == valid,
    {
        let bit: u16 = 1u16 << (issuer as u16);
        let c: u16 = self.checked[subject];
        let w: u16 = self.valid[subject];
        self.checked.set(subject, c | bit);
        if valid {
            self.valid.set(subject, w | bit);
        } else {
            self.valid.set(subject, w & !bit);
        }
        proof {
            assert forall|s: int, i: int| 0 <= s < 10 && 0 <= i < 10 implies #[trigger] self.knows(s, i)
                == (old(self).knows(s, i) || (s == subject && i == issuer)) by {
                lemma_bit(c, issuer as u16, i as u16);
            }
            assert forall|s: int, i: int|
                0 <= s < 10 && 0 <= i < 10 && !(s == subject && i == issuer) implies #[trigger] self.holds(
                s,
                i,
            ) == old(self).holds(s, i) by {
                lemma_bit(w, issuer as u16, i as u16);
                lemma_clear_bit(w, issuer as u16, i as u16);
            }
            lemma_bit(w, issuer as u16, issuer as u16);
            lemma_clear_bit(w, issuer as u16, issuer as u16);
        }
    }
}

/// A search over the paths of at most [`MAX_LEN`] certificates. What was found
/// out once about a certificate, a signature or a state is not found out again.
pub struct Search<'chain, 'der, 'anchor> {
    certificates: &'chain Vec<PathCert<'der>>,
    anchors: &'chain [TrustAnchor<'anchor>],
    now: UnixTime,
    seen: Seen,
    signatures: SignatureCache,
    profiles: Vec<Option<Result<Profile<'der>, Error>>>,
    failure: Option<Error>,
}

impl<'chain, 'der, 'anchor> View for Search<'chain, 'der, 'anchor> {
    type V = SearchView;

    closed spec fn view(&self) -> SearchView {
        SearchView {
            certs: path_certs(self.certificates@),
            anchors: anchor_views(self.anchors@),
            now: self.now.0,
        }
    }
}

/// Whether one certificate's signature verifies under another's key.
spec fn signature_verdict(v: SearchView, s: int, i: int) -> Result<(), crate::identity::cert::VerifyError> {
    signed_by(v.certs[s].tbs_der, v.certs[s].algorithm, v.certs[s].signature, v.certs[i].spki)
}

impl<'chain, 'der, 'anchor> Search<'chain, 'der, 'anchor> {
    spec fn wf(self) -> bool {
        &&& 0 < self@.certs.len() <= MAX_LEN
        &&& self.certificates@.len() == self@.certs.len()
        &&& self.seen.sized()
        &&& self.signatures.checked@.len() == 10
        &&& self.signatures.valid@.len() == 10
        &&& self.profiles@.len() == self@.certs.len()
        &&& forall|i: int|
            0 <= i < self@.certs.len() ==> match #[trigger] self.profiles@[i] {
                Some(Ok(p)) => prepared(self@.certs[i], self@.now) == Ok::<ProfileView, Error>(p@),
                Some(Err(e)) => prepared(self@.certs[i], self@.now) == Err::<ProfileView, Error>(e),
                None => true,
            }
        &&& forall|s: int, i: int|
            0 <= s < self@.certs.len() && 0 <= i < self@.certs.len() && #[trigger] self.signatures.knows(s, i)
                ==> {
                &&& self.signatures.holds(s, i) == (signature_verdict(self@, s, i) is Ok)
                &&& !self.signatures.holds(s, i) ==> self.failure is Some
            }
    }

    /// Whether every state the search has come to is that of one of the first `n`
    /// prefixes of a path, or one that it need not come to again.
    spec fn settled(self, path: Seq<u8>, n: int) -> bool {
        forall|s: (u8, u16)| #[trigger]
            self.seen.has(s) ==> in_progress(path, n, s) || (self.failure is Some && is_dead(self@, s))
    }

    /// A search that has not started.
    pub fn new(
        certificates: &'chain Vec<PathCert<'der>>,
        anchors: &'chain [TrustAnchor<'anchor>],
        now: UnixTime,
    ) -> (r: Self)
        ensures
            r@ == (SearchView {
                certs: path_certs(certificates@),
                anchors: anchor_views(anchors@),
                now: now.0,
            }),
            r.fresh(),
    {
        let mut profiles: Vec<Option<Result<Profile<'der>, Error>>> = Vec::new();
        let mut i: usize = 0;
        while i < certificates.len()
            invariant
                i <= certificates.len(),
                profiles@.len() == i,
                forall|j: int| 0 <= j < i ==> #[trigger] profiles@[j] is None,
            decreases certificates.len() - i,
        {
            profiles.push(None);
            i = i + 1;
        }
        Self {
            certificates,
            anchors,
            now,
            seen: Seen::new(),
            signatures: SignatureCache::new(),
            profiles,
            failure: None,
        }
    }

    /// Whether nothing has been found out yet.
    pub closed spec fn fresh(self) -> bool {
        &&& self.failure is None
        &&& self.seen.sized()
        &&& forall|s: (u8, u16)| !#[trigger] self.seen.has(s)
        &&& self.signatures.checked@.len() == 10
        &&& self.signatures.valid@.len() == 10
        &&& forall|s: int, i: int| 0 <= s < 10 && 0 <= i < 10 ==> !#[trigger] self.signatures.knows(s, i)
        &&& self.profiles@.len() == self@.certs.len()
        &&& forall|i: int| 0 <= i < self.profiles@.len() ==> #[trigger] self.profiles@[i] is None
    }

    /// Looks for a path from the first certificate, that of a server named `host`,
    /// to a trust anchor.
    pub fn run(self, host: &[u8]) -> (r: Result<(), Error>)
        requires
            self.fresh(),
            0 < self@.certs.len() <= MAX_LEN,
        ensures
            r == search_verdict(self@, host@),
    {
        reveal(search_verdict);
        let ghost v = self@;
        let mut search = self;
        let leaf = search.prepare_candidate(0)?;
        leaf.check_leaf(host)?;
        let mut path = new_stack();
        push_index(&mut path, 0);
        let mut below: Vec<Profile<'der>> = Vec::new();
        below.push(leaf);
        proof {
            let p = stacked(path);
            assert(p =~= seq![0u8]);
            assert(profile_views(below@) =~= profiles(v, p));
            assert(p.drop_last() =~= Seq::empty());
            assert(mask(p.drop_last()) == 0);
            assert(mask(p) == 1u16) by {
                assert(0u16 | (1u16 << 0u16) == 1u16) by (bit_vector);
            }
        }
        if search.visit(&mut path, &mut below, 1) {
            return Ok(());
        }
        proof {
            lemma_visit_failure(v, seq![0u8], None);
        }
        match search.failure {
            Some(e) => Err(e),
            None => Err(Error::NoTrustAnchor),
        }
    }

    /// Goes on from a path, whose certificates say what `below` says and are the
    /// bits of `used`.
    fn visit(
        &mut self,
        path: &mut CopyInline<u8, 10>,
        below: &mut Vec<Profile<'der>>,
        used: u16,
    ) -> (r: bool)
        requires
            old(self).wf(),
            is_path(old(self)@, stacked(*old(path))),
            profile_views(old(below)@) == profiles(old(self)@, stacked(*old(path))),
            used == mask(stacked(*old(path))),
            old(self).settled(stacked(*old(path)), stacked(*old(path)).len() - 1),
        ensures
            final(self).wf(),
            final(self)@ == old(self)@,
            r == visit(old(self)@, stacked(*old(path)), old(self).failure).0,
            !r ==> {
                &&& stacked(*final(path)) == stacked(*old(path))
                &&& profile_views(final(below)@) == profile_views(old(below)@)
                &&& final(self).failure == visit(old(self)@, stacked(*old(path)), old(self).failure).1
                &&& final(self).settled(stacked(*old(path)), stacked(*old(path)).len() - 1)
            },
        decreases old(self)@.certs.len() - stacked(*old(path)).len(),
    {
        let ghost v = self@;
        let ghost p = stacked(*path);
        let ghost start = self.failure;
        let n: usize = self.certificates.len();
        let slice = stack_slice(path);
        let subject: u8 = slice[slice.len() - 1];
        proof {
            assert(p[p.len() - 1] < n);
            lemma_mask(p, subject);
            lemma_visit_failure(v, p, start);
        }
        let ghost before = *self;
        if !self.seen.insert(subject, used) {
            proof {
                let s = state(p);
                assert(before.seen.has(s));
                lemma_not_in_progress(v, p);
                assert(is_dead(v, s));
                lemma_alike_visit(v, p, p, None, start);
                assert forall|t: (u8, u16)| #[trigger] self.seen.has(t) implies in_progress(
                    p,
                    p.len() - 1,
                    t,
                ) || (self.failure is Some && is_dead(v, t)) by {
                    assert(before.seen.has(t));
                }
            }
            return false;
        }
        proof {
            assert(p.take(p.len() as int) =~= p);
            assert forall|t: (u8, u16)| #[trigger] self.seen.has(t) implies in_progress(
                p,
                p.len() as int,
                t,
            ) || (self.failure is Some && is_dead(v, t)) by {
                if before.seen.has(t) {
                    lemma_in_progress_more(p, p.len() - 1, t);
                } else {
                    assert(state(p.take(p.len() as int)) == t);
                }
            }
        }
        if self.anchor_accepts(path, below) {
            return true;
        }
        let mut from: usize = 1;
        loop
            invariant
                v == self@,
                self.wf(),
                n == v.certs.len(),
                n == self.certificates@.len(),
                is_path(v, p),
                stacked(*path) == p,
                profile_views(below@) == profiles(v, p),
                profile_views(below@) == profile_views(old(below)@),
                used == mask(p),
                v == old(self)@,
                p == stacked(*old(path)),
                start == old(self).failure,
                1 <= from,
                follow(v, p, from as int, self.failure) == visit(v, p, start),
                self.settled(p, p.len() as int),
            decreases n - from,
        {
            let ghost f = self.failure;
            let ghost seen = self.seen;
            proof {
                lemma_next_link(v, p, from as int, f, f);
            }
            match self.next_issuer(path, below, used, from) {
                None => {
                    assert(below@.len() == p.len()) by {
                        assert(profile_views(below@).len() == profiles(v, p).len());
                    }
                    self.reject(
                        if below.len() == n {
                            Error::NoTrustAnchor
                        } else {
                            Error::IssuerSubjectMismatch
                        },
                    );
                    proof {
                        assert(self.failure == visit(v, p, start).1);
                        lemma_dead(v, p, start);
                        assert forall|t: (u8, u16)| #[trigger] self.seen.has(t) implies in_progress(
                            p,
                            p.len() - 1,
                            t,
                        ) || (self.failure is Some && is_dead(v, t)) by {
                            lemma_in_progress_last(p, t);
                        }
                    }
                    return false;
                },
                Some((issuer, profile)) => {
                    let ghost g = self.failure;
                    let ghost q = p.push(issuer as u8);
                    proof {
                        lemma_extend(v, p, issuer as int);
                        assert(q.drop_last() =~= p);
                    }
                    push_index(path, issuer as u8);
                    below.push(profile);
                    let bit: u16 = 1u16 << (issuer as u16);
                    proof {
                        assert(profile_views(below@) =~= profiles(v, q)) by {
                            assert(profiles(v, q) =~= profiles(v, p).push(profile@));
                        }
                        assert forall|t: (u8, u16)| #[trigger] self.seen.has(t) implies in_progress(
                            q,
                            q.len() - 1,
                            t,
                        ) || (self.failure is Some && is_dead(v, t)) by {
                            lemma_in_progress_push(p, issuer as u8, t);
                        }
                    }
                    if self.visit(path, below, used | bit) {
                        return true;
                    }
                    pop_index(path);
                    below.pop();
                    proof {
                        assert(stacked(*path) =~= p);
                        assert(profile_views(below@) =~= profiles(v, q).drop_last());
                        assert(profiles(v, q).drop_last() =~= profiles(v, p));
                        assert forall|t: (u8, u16)| #[trigger] self.seen.has(t) implies in_progress(
                            p,
                            p.len() as int,
                            t,
                        ) || (self.failure is Some && is_dead(v, t)) by {
                            lemma_in_progress_push(p, issuer as u8, t);
                        }
                    }
                    from = issuer + 1;
                },
            }
        }
    }

    /// The next certificate from `from` on that can follow a path, and what it says.
    fn next_issuer(
        &mut self,
        path: &CopyInline<u8, 10>,
        below: &Vec<Profile<'der>>,
        used: u16,
        from: usize,
    ) -> (r: Option<(usize, Profile<'der>)>)
        requires
            old(self).wf(),
            is_path(old(self)@, stacked(*path)),
            profile_views(below@) == profiles(old(self)@, stacked(*path)),
            used == mask(stacked(*path)),
        ensures
            final(self).wf(),
            final(self)@ == old(self)@,
            final(self).seen == old(self).seen,
            final(self).failure == next_link(
                old(self)@,
                stacked(*path),
                from as int,
                old(self).failure,
            ).1,
            match next_link(old(self)@, stacked(*path), from as int, old(self).failure).0 {
                Some(j) => r is Some && (r->0).0 == j && prepared(old(self)@.certs[j], old(self)@.now)
                    == Ok::<ProfileView, Error>((r->0).1@),
                None => r is None,
            },
    {
        let ghost v = self@;
        let ghost p = stacked(*path);
        let ghost f = self.failure;
        let n: usize = self.certificates.len();
        let slice = stack_slice(path);
        let subject: usize = slice[slice.len() - 1] as usize;
        assert(p[p.len() - 1] < n);
        let issuer_name = self.certificates[subject].issuer;
        assert(issuer_name@ == v.certs[subject as int].issuer);
        let mut i: usize = from;
        while i < n
            invariant
                v == self@,
                v == old(self)@,
                self.wf(),
                n == self.certificates@.len(),
                n == v.certs.len(),
                self.seen == old(self).seen,
                is_path(v, p),
                p == stacked(*path),
                f == old(self).failure,
                subject == p.last(),
                subject < n,
                issuer_name@ == v.certs[subject as int].issuer,
                profile_views(below@) == profiles(v, p),
                used == mask(p),
                next_link(v, p, from as int, f) == next_link(v, p, i as int, self.failure),
            decreases n - i,
        {
            proof {
                lemma_mask(p, i as u8);
                reveal(is_candidate);
                reveal(link);
            }
            let bit: u16 = 1u16 << (i as u16);
            assert(self.certificates@[i as int]@ == v.certs[i as int]);
            if used & bit != 0 || !self.certificates[i].subject.equivalent(issuer_name) {
                i = i + 1;
                continue;
            }
            match self.prepare_candidate(i) {
                Err(e) => {
                    self.reject(e);
                },
                Ok(profile) => match profile.check_issuer(below) {
                    Err(e) => {
                        self.reject(e);
                    },
                    Ok(()) => {
                        if self.signature_is_valid(subject, i) {
                            return Some((i, profile));
                        }
                    },
                },
            }
            i = i + 1;
        }
        None
    }

    /// Whether a trust anchor issued the last certificate of a path and allows the
    /// path.
    fn anchor_accepts(&mut self, path: &CopyInline<u8, 10>, below: &Vec<Profile<'der>>) -> (r: bool)
        requires
            old(self).wf(),
            is_path(old(self)@, stacked(*path)),
            profile_views(below@) == profiles(old(self)@, stacked(*path)),
        ensures
            final(self).wf(),
            final(self)@ == old(self)@,
            final(self).seen == old(self).seen,
            match anchored(old(self)@, stacked(*path)) {
                Ok(b) => r == b && final(self).failure == old(self).failure,
                Err(e) => !r && final(self).failure == first(old(self).failure, e),
            },
    {
        reveal(anchored);
        let ghost v = self@;
        let ghost p = stacked(*path);
        let slice = stack_slice(path);
        let subject: usize = slice[slice.len() - 1] as usize;
        assert(p[p.len() - 1] < v.certs.len());
        assert(self.certificates@[subject as int]@ == v.certs[subject as int]);
        match Chain::verifies_against_anchor(&self.certificates[subject], self.anchors) {
            Err(e) => {
                self.reject(e);
                false
            },
            Ok(None) => false,
            Ok(Some(anchor)) => match &anchor.constraints {
                None => true,
                Some(c) => match c.check(below) {
                    Ok(()) => true,
                    Err(e) => {
                        self.reject(e);
                        false
                    },
                },
            },
        }
    }

    /// What a certificate says, where it can be read and is valid.
    fn prepare_candidate(&mut self, i: usize) -> (r: Result<Profile<'der>, Error>)
        requires
            old(self).wf() || (old(self).fresh() && 0 < old(self)@.certs.len() <= MAX_LEN),
            i < old(self)@.certs.len(),
        ensures
            final(self).wf(),
            final(self)@ == old(self)@,
            final(self).seen == old(self).seen,
            final(self).failure == old(self).failure,
            match prepared(old(self)@.certs[i as int], old(self)@.now) {
                Ok(p) => r is Ok && r->Ok_0@ == p,
                Err(e) => r is Err && r->Err_0 == e,
            },
    {
        if let Some(known) = self.profiles[i] {
            return known;
        }
        assert(self.certificates@[i as int]@ == self@.certs[i as int]);
        let outcome = self.certificates[i].prepare(self.now);
        self.profiles.set(i, Some(outcome));
        outcome
    }

    /// Whether one certificate's signature verifies under another's key.
    fn signature_is_valid(&mut self, subject: usize, issuer: usize) -> (r: bool)
        requires
            old(self).wf(),
            subject < old(self)@.certs.len(),
            issuer < old(self)@.certs.len(),
        ensures
            final(self).wf(),
            final(self)@ == old(self)@,
            final(self).seen == old(self).seen,
            match signature_verdict(old(self)@, subject as int, issuer as int) {
                Ok(_) => r && final(self).failure == old(self).failure,
                Err(e) => !r && final(self).failure == first(old(self).failure, Error::Verify(e)),
            },
    {
        if let Some(valid) = self.signatures.get(subject, issuer) {
            return valid;
        }
        assert(self.certificates@[subject as int]@ == self@.certs[subject as int]);
        assert(self.certificates@[issuer as int]@ == self@.certs[issuer as int]);
        match self.certificates[subject].signed.verify_signature(&self.certificates[issuer].spki) {
            Ok(()) => {
                self.signatures.insert(subject, issuer, true);
                true
            },
            Err(e) => {
                self.signatures.insert(subject, issuer, false);
                if self.failure.is_none() {
                    self.failure = Some(Error::Verify(e));
                }
                false
            },
        }
    }

    /// Records a failure where there is none yet.
    fn reject(&mut self, error: Error)
        requires
            old(self).wf(),
        ensures
            final(self).wf(),
            final(self)@ == old(self)@,
            final(self).seen == old(self).seen,
            final(self).failure == first(old(self).failure, error),
    {
        if self.failure.is_none() {
            self.failure = Some(error);
        }
    }
}

/// A path's own state is not that of a shorter prefix.
proof fn lemma_not_in_progress(v: SearchView, p: Seq<u8>)
    requires
        is_path(v, p),
    ensures
        !in_progress(p, p.len() - 1, state(p)),
{
    if in_progress(p, p.len() - 1, state(p)) {
        let k = choose|k: int| 1 <= k <= p.len() - 1 && #[trigger] state(p.take(k)) == state(p);
        let q = p.take(k);
        let j = p[k];
        assert forall|i: int| 0 <= i < q.len() implies (#[trigger] q[i]) < 10 by {
            assert(q[i] == p[i]);
        }
        assert(j < 10);
        lemma_mask(p, j);
        lemma_mask(q, j);
        assert(p.contains(j));
        if q.contains(j) {
            let i = choose|i: int| 0 <= i < q.len() && q[i] == j;
            assert(p[i] == p[k]);
        }
    }
}

proof fn lemma_in_progress_more(p: Seq<u8>, n: int, t: (u8, u16))
    ensures
        in_progress(p, n, t) ==> in_progress(p, n + 1, t),
{
    if in_progress(p, n, t) {
        let k = choose|k: int| 1 <= k <= n && #[trigger] state(p.take(k)) == t;
        assert(state(p.take(k)) == t);
    }
}

proof fn lemma_in_progress_last(p: Seq<u8>, t: (u8, u16))
    requires
        p.len() > 0,
    ensures
        in_progress(p, p.len() as int, t) ==> in_progress(p, p.len() - 1, t) || t == state(p),
{
    if in_progress(p, p.len() as int, t) {
        let k = choose|k: int| 1 <= k <= p.len() && #[trigger] state(p.take(k)) == t;
        if k == p.len() {
            assert(p.take(k) =~= p);
        } else {
            assert(state(p.take(k)) == t);
        }
    }
}

proof fn lemma_in_progress_push(p: Seq<u8>, j: u8, t: (u8, u16))
    ensures
        in_progress(p, p.len() as int, t) == in_progress(p.push(j), p.len() as int, t),
{
    let q = p.push(j);
    if in_progress(p, p.len() as int, t) {
        let k = choose|k: int| 1 <= k <= p.len() && #[trigger] state(p.take(k)) == t;
        assert(q.take(k) =~= p.take(k));
        assert(state(q.take(k)) == t);
    }
    if in_progress(q, p.len() as int, t) {
        let k = choose|k: int| 1 <= k <= p.len() && #[trigger] state(q.take(k)) == t;
        assert(q.take(k) =~= p.take(k));
        assert(state(p.take(k)) == t);
    }
}

/// A path that does not reach a trust anchor leaves a state that need not be come
/// to again.
proof fn lemma_dead(v: SearchView, p: Seq<u8>, f: Option<Error>)
    requires
        is_path(v, p),
        !visit(v, p, f).0,
    ensures
        is_dead(v, state(p)),
{
    assert forall|q: Seq<u8>| is_path(v, q) && #[trigger] state(q) == state(p) implies !visit(v, q, None).0 by {
        lemma_same_mask(v, p, q);
        lemma_alike_visit(v, p, q, f, None);
    }
}

/// A path with a certificate that can follow it is a path, and shorter than the
/// chain before.
proof fn lemma_extend(v: SearchView, p: Seq<u8>, j: int)
    requires
        is_path(v, p),
        0 <= j < v.certs.len(),
        is_candidate(v, p, j),
        link(v, p, j) is Ok,
    ensures
        is_path(v, p.push(j as u8)),
        p.len() < v.certs.len(),
{
    reveal(is_candidate);
    reveal(link);
    let q = p.push(j as u8);
    assert(q.no_duplicates()) by {
        assert forall|a: int, b: int| 0 <= a < q.len() && 0 <= b < q.len() && a != b implies q[a] != q[b] by {
            if a < p.len() && b < p.len() {
                assert(q[a] == p[a] && q[b] == p[b]);
            } else if a < p.len() {
                assert(p.contains(p[a]));
            } else {
                assert(p.contains(p[b]));
            }
        }
    }
    assert forall|k: int| 0 <= k < q.len() implies (#[trigger] q[k]) < v.certs.len() by {
        if k < p.len() {
            assert(q[k] == p[k]);
        }
    }
    assert forall|k: int| 0 <= k < q.len() implies prepared(
        v.certs[(#[trigger] q[k]) as int],
        v.now,
    ) is Ok by {
        if k < p.len() {
            assert(q[k] == p[k]);
        }
    }
    q.unique_seq_to_set();
    let all = vstd::set_lib::set_int_range(0, v.certs.len() as int);
    vstd::set_lib::lemma_int_range(0, v.certs.len() as int);
    let ints = q.to_set().map(|x: u8| x as int);
    vstd::set_lib::lemma_map_size(q.to_set(), ints, |x: u8| x as int);
    assert(ints.subset_of(all)) by {
        assert forall|x: int| ints.contains(x) implies all.contains(x) by {
            let y = choose|y: u8| q.to_set().contains(y) && x == y as int;
            assert(q.contains(y));
            let k = choose|k: int| 0 <= k < q.len() && q[k] == y;
            assert(q[k] < v.certs.len());
        }
    }
    vstd::set_lib::lemma_len_subset(ints, all);
}

} // verus!
