//! What it means that a chain is valid, said of the certificates themselves.

use vstd::prelude::*;

use crate::crypto::sig::signature_valid;
use crate::identity::cert::algorithm::verification;
use crate::identity::cert::dn::{rdns, same_name};
use crate::identity::cert::ext::scope::{
    dns_match, has_kind, in_dns_subtree, in_ip_subtree, ip_match, on_dns, on_ip, on_other, GeneralNameView,
};
use crate::identity::chain::extensions::{
    constraints_verdict, leaf_verdict, name_allowed, names_host, profile, profile_allowed,
    supported, ConstraintsView, ProfileView,
};
use crate::identity::chain::prepared::prepared_verdict;
use crate::identity::chain::search::{
    anchored, is_candidate, law_search_complete, link, profiles, reaches_anchor, search_verdict,
    SearchView,
};
use crate::identity::chain::{
    anchor_constraints, anchor_verdict, anchors_verdict, AnchorMatchView, AnchorView, Error,
    PathCertView, MAX_LEN,
};
use crate::identity::cert::SpkiView;
use crate::identity::hostname::{ip_address, name_matches};

verus! {

/// Whether a key verifies a certificate's signature.
pub open spec fn signature_holds(c: PathCertView, key: SpkiView) -> bool {
    verification(c.algorithm, key.algorithm) matches Ok(scheme) && signature_valid(
        scheme,
        key.key,
        c.tbs_der,
        c.signature,
    )
}

/// Whether a trust anchor issued a certificate: it has the issuer's name, and its key
/// verifies the signature.
pub open spec fn issued_by_anchor(a: AnchorView, c: PathCertView) -> bool {
    same_name(a.subject, c.issuer) && signature_holds(c, a.spki)
}

/// Whether a trust anchor's name can be compared with a certificate's issuer.
pub open spec fn comparable_anchor(a: AnchorView, c: PathCertView) -> bool {
    a.subject == c.issuer || rdns(a.subject, false) is Ok
}

/// A trust anchor speaks for exactly the certificates that it issued.
pub proof fn law_anchor_speaks_for_its_own(a: AnchorView, c: PathCertView)
    requires
        comparable_anchor(a, c),
        anchor_constraints(a.constraints) is Ok,
    ensures
        anchor_verdict(a, c) == if issued_by_anchor(a, c) {
            Ok::<Option<Option<AnchorMatchView>>, Error>(Some(anchor_constraints(a.constraints)->Ok_0))
        } else {
            Ok(None)
        },
{
}

/// Among several trust anchors the first that has something to say of a certificate
/// decides, wherever in the list it stands.
pub proof fn law_first_anchor_decides(anchors: Seq<AnchorView>, c: PathCertView, k: int)
    requires
        0 <= k < anchors.len(),
        anchor_verdict(anchors[k], c) != Ok::<Option<Option<AnchorMatchView>>, Error>(None),
        forall|j: int|
            0 <= j < k ==> anchor_verdict(#[trigger] anchors[j], c) == Ok::<
                Option<Option<AnchorMatchView>>,
                Error,
            >(None),
    ensures
        anchors_verdict(anchors, c, 0) == anchor_verdict(anchors[k], c),
{
    lemma_first_from(anchors, c, 0, k);
}

proof fn lemma_first_from(anchors: Seq<AnchorView>, c: PathCertView, i: int, k: int)
    requires
        0 <= i <= k < anchors.len(),
        anchor_verdict(anchors[k], c) != Ok::<Option<Option<AnchorMatchView>>, Error>(None),
        forall|j: int|
            0 <= j < k ==> anchor_verdict(#[trigger] anchors[j], c) == Ok::<
                Option<Option<AnchorMatchView>>,
                Error,
            >(None),
    ensures
        anchors_verdict(anchors, c, i) == anchor_verdict(anchors[k], c),
    decreases k - i,
{
    if i < k {
        assert(anchor_verdict(anchors[i], c) == Ok::<Option<Option<AnchorMatchView>>, Error>(None));
        lemma_first_from(anchors, c, i + 1, k);
    }
}

/// Where no trust anchor has anything to say of a certificate, the list has not.
pub proof fn law_no_anchor_no_verdict(anchors: Seq<AnchorView>, c: PathCertView)
    requires
        forall|j: int|
            0 <= j < anchors.len() ==> anchor_verdict(#[trigger] anchors[j], c) == Ok::<
                Option<Option<AnchorMatchView>>,
                Error,
            >(None),
    ensures
        anchors_verdict(anchors, c, 0) == Ok::<Option<Option<AnchorMatchView>>, Error>(None),
{
    lemma_none_from(anchors, c, 0);
}

proof fn lemma_none_from(anchors: Seq<AnchorView>, c: PathCertView, i: int)
    requires
        0 <= i <= anchors.len(),
        forall|j: int|
            0 <= j < anchors.len() ==> anchor_verdict(#[trigger] anchors[j], c) == Ok::<
                Option<Option<AnchorMatchView>>,
                Error,
            >(None),
    ensures
        anchors_verdict(anchors, c, i) == Ok::<Option<Option<AnchorMatchView>>, Error>(None),
    decreases anchors.len() - i,
{
    if i < anchors.len() {
        assert(anchor_verdict(anchors[i], c) == Ok::<Option<Option<AnchorMatchView>>, Error>(None));
        lemma_none_from(anchors, c, i + 1);
    }
}

/// A trust anchor that did not issue a certificate makes no difference to it, wherever
/// it is put among others.
pub proof fn law_other_anchors_make_no_difference(
    before: Seq<AnchorView>,
    a: AnchorView,
    after: Seq<AnchorView>,
    c: PathCertView,
)
    requires
        anchor_verdict(a, c) == Ok::<Option<Option<AnchorMatchView>>, Error>(None),
    ensures
        anchors_verdict(before + seq![a] + after, c, 0) == anchors_verdict(before + after, c, 0),
{
    lemma_other_from(before, a, after, c, 0);
}

proof fn lemma_other_from(
    before: Seq<AnchorView>,
    a: AnchorView,
    after: Seq<AnchorView>,
    c: PathCertView,
    i: int,
)
    requires
        0 <= i <= before.len() + after.len(),
        anchor_verdict(a, c) == Ok::<Option<Option<AnchorMatchView>>, Error>(None),
    ensures
        i <= before.len() ==> anchors_verdict(before + seq![a] + after, c, i) == anchors_verdict(
            before + after,
            c,
            i,
        ),
        i >= before.len() ==> anchors_verdict(before + seq![a] + after, c, i + 1) == anchors_verdict(
            before + after,
            c,
            i,
        ),
    decreases before.len() + after.len() - i,
{
    let l = before + seq![a] + after;
    let r = before + after;
    if i < before.len() {
        assert(l[i] == r[i]);
        lemma_other_from(before, a, after, c, i + 1);
    } else {
        if i < r.len() {
            assert(l[i + 1] == r[i]);
            lemma_other_from(before, a, after, c, i + 1);
        }
        if i == before.len() {
            assert(l[i] == a);
        }
    }
}

/// Whether constraints allow a list of names: no DNS name or address lies in an
/// excluded subtree of its kind, each lies in a permitted one where there is any of its
/// kind, and there is no constraint of another kind.
pub open spec fn names_within(c: ConstraintsView, names: Seq<GeneralNameView>) -> bool {
    &&& forall|j: int| 0 <= j < c.permitted.len() ==> !((#[trigger] c.permitted[j]) is Other)
    &&& forall|j: int| 0 <= j < c.excluded.len() ==> !((#[trigger] c.excluded[j]) is Other)
    &&& forall|i: int|
        0 <= i < names.len() ==> match #[trigger] names[i] {
            GeneralNameView::Dns(d) => {
                &&& forall|j: int|
                    0 <= j < c.excluded.len() ==> !((#[trigger] c.excluded[j]) is Dns && in_dns_subtree(
                        d,
                        c.excluded[j]->Dns_0,
                    ))
                &&& (exists|j: int| 0 <= j < c.permitted.len() && (#[trigger] c.permitted[j]) is Dns) ==> (
                exists|j: int|
                    0 <= j < c.permitted.len() && (#[trigger] c.permitted[j]) is Dns && in_dns_subtree(
                        d,
                        c.permitted[j]->Dns_0,
                    ))
            },
            GeneralNameView::Ip(a) => {
                &&& forall|j: int|
                    0 <= j < c.excluded.len() ==> !((#[trigger] c.excluded[j]) is Ip && in_ip_subtree(
                        a,
                        c.excluded[j]->Ip_0,
                    ))
                &&& (exists|j: int| 0 <= j < c.permitted.len() && (#[trigger] c.permitted[j]) is Ip) ==> (
                exists|j: int|
                    0 <= j < c.permitted.len() && (#[trigger] c.permitted[j]) is Ip && in_ip_subtree(
                        a,
                        c.permitted[j]->Ip_0,
                    ))
            },
            GeneralNameView::Other(_, _) => true,
        }
}

proof fn lemma_name_within(c: ConstraintsView, n: GeneralNameView)
    requires
        supported(c),
    ensures
        name_allowed(c, n) == names_within(c, seq![n]),
{
    let one = seq![n];
    let other = |m: GeneralNameView| on_other(m);
    assert forall|j: int| 0 <= j < c.permitted.len() implies !((#[trigger] c.permitted[j]) is Other) by {
        assert(!other(c.permitted[j]));
    }
    assert forall|j: int| 0 <= j < c.excluded.len() implies !((#[trigger] c.excluded[j]) is Other) by {
        assert(!other(c.excluded[j]));
    }
    assert(one[0] == n);
    match n {
        GeneralNameView::Dns(d) => {
            let k = |m: GeneralNameView| m is Dns && in_dns_subtree(d, m->Dns_0);
            let any = |m: GeneralNameView| on_dns(m);
            assert(dns_match(c.excluded, d) == has_kind(c.excluded, k));
            assert(dns_match(c.permitted, d) == has_kind(c.permitted, k));
            if names_within(c, one) {
                assert forall|j: int| 0 <= j < c.excluded.len() implies !k(#[trigger] c.excluded[j]) by {}
                if has_kind(c.permitted, any) {
                    let j = choose|j: int| 0 <= j < c.permitted.len() && any(#[trigger] c.permitted[j]);
                    assert(c.permitted[j] is Dns);
                    let m = choose|j: int|
                        0 <= j < c.permitted.len() && (#[trigger] c.permitted[j]) is Dns && in_dns_subtree(
                            d,
                            c.permitted[j]->Dns_0,
                        );
                    assert(k(c.permitted[m]));
                }
                assert(name_allowed(c, n));
            }
            if name_allowed(c, n) {
                assert forall|j: int| 0 <= j < c.excluded.len() implies !((#[trigger] c.excluded[j]) is Dns
                    && in_dns_subtree(d, c.excluded[j]->Dns_0)) by {
                    assert(!k(c.excluded[j]));
                }
                if exists|j: int| 0 <= j < c.permitted.len() && (#[trigger] c.permitted[j]) is Dns {
                    let j = choose|j: int| 0 <= j < c.permitted.len() && (#[trigger] c.permitted[j]) is Dns;
                    assert(any(c.permitted[j]));
                    let m = choose|j: int| 0 <= j < c.permitted.len() && k(#[trigger] c.permitted[j]);
                    assert(c.permitted[m] is Dns && in_dns_subtree(d, c.permitted[m]->Dns_0));
                }
                assert(names_within(c, one));
            }
        },
        GeneralNameView::Ip(a) => {
            let k = |m: GeneralNameView| m is Ip && in_ip_subtree(a, m->Ip_0);
            let any = |m: GeneralNameView| on_ip(m);
            assert(ip_match(c.excluded, a) == has_kind(c.excluded, k));
            assert(ip_match(c.permitted, a) == has_kind(c.permitted, k));
            if names_within(c, one) {
                assert forall|j: int| 0 <= j < c.excluded.len() implies !k(#[trigger] c.excluded[j]) by {}
                if has_kind(c.permitted, any) {
                    let j = choose|j: int| 0 <= j < c.permitted.len() && any(#[trigger] c.permitted[j]);
                    assert(c.permitted[j] is Ip);
                    let m = choose|j: int|
                        0 <= j < c.permitted.len() && (#[trigger] c.permitted[j]) is Ip && in_ip_subtree(
                            a,
                            c.permitted[j]->Ip_0,
                        );
                    assert(k(c.permitted[m]));
                }
                assert(name_allowed(c, n));
            }
            if name_allowed(c, n) {
                assert forall|j: int| 0 <= j < c.excluded.len() implies !((#[trigger] c.excluded[j]) is Ip
                    && in_ip_subtree(a, c.excluded[j]->Ip_0)) by {
                    assert(!k(c.excluded[j]));
                }
                if exists|j: int| 0 <= j < c.permitted.len() && (#[trigger] c.permitted[j]) is Ip {
                    let j = choose|j: int| 0 <= j < c.permitted.len() && (#[trigger] c.permitted[j]) is Ip;
                    assert(any(c.permitted[j]));
                    let m = choose|j: int| 0 <= j < c.permitted.len() && k(#[trigger] c.permitted[j]);
                    assert(c.permitted[m] is Ip && in_ip_subtree(a, c.permitted[m]->Ip_0));
                }
                assert(names_within(c, one));
            }
        },
        GeneralNameView::Other(_, _) => {},
    }
}

proof fn lemma_supported(c: ConstraintsView, names: Seq<GeneralNameView>)
    ensures
        names_within(c, names) ==> supported(c),
        supported(c) == names_within(c, Seq::empty()),
{
    let other = |m: GeneralNameView| on_other(m);
    if names_within(c, names) || names_within(c, Seq::empty()) {
        assert forall|j: int| 0 <= j < c.permitted.len() implies !other(#[trigger] c.permitted[j]) by {}
        assert forall|j: int| 0 <= j < c.excluded.len() implies !other(#[trigger] c.excluded[j]) by {}
    }
    if supported(c) {
        assert forall|j: int| 0 <= j < c.permitted.len() implies !((#[trigger] c.permitted[j]) is Other) by {
            assert(!other(c.permitted[j]));
        }
        assert forall|j: int| 0 <= j < c.excluded.len() implies !((#[trigger] c.excluded[j]) is Other) by {
            assert(!other(c.excluded[j]));
        }
    }
}

/// Constraints allow certificates exactly if they allow the names of each.
pub proof fn law_constraints_bind_every_name(c: ConstraintsView, below: Seq<ProfileView>)
    requires
        below.len() > 0,
    ensures
        constraints_verdict(c, below) is Ok <==> forall|i: int|
            0 <= i < below.len() ==> names_within(c, (#[trigger] below[i]).names),
{
    if forall|i: int| 0 <= i < below.len() ==> names_within(c, (#[trigger] below[i]).names) {
        assert(names_within(c, below[0].names));
        lemma_supported(c, below[0].names);
        assert forall|i: int| 0 <= i < below.len() implies profile_allowed(c, #[trigger] below[i]) by {
            let names = below[i].names;
            assert(names_within(c, names));
            assert forall|j: int| 0 <= j < names.len() implies name_allowed(c, #[trigger] names[j]) by {
                lemma_name_within(c, names[j]);
                assert(names_within(c, seq![names[j]]));
            }
        }
    }
    if constraints_verdict(c, below) is Ok {
        lemma_supported(c, Seq::empty());
        assert forall|i: int| 0 <= i < below.len() implies names_within(c, (#[trigger] below[i]).names) by {
            let names = below[i].names;
            assert(profile_allowed(c, below[i]));
            assert forall|j: int| 0 <= j < names.len() implies names_within(c, seq![#[trigger] names[j]]) by {
                assert(name_allowed(c, names[j]));
                lemma_name_within(c, names[j]);
            }
            assert forall|j: int| 0 <= j < names.len() implies match #[trigger] names[j] {
                GeneralNameView::Dns(d) => {
                    &&& forall|j: int|
                        0 <= j < c.excluded.len() ==> !((#[trigger] c.excluded[j]) is Dns && in_dns_subtree(
                            d,
                            c.excluded[j]->Dns_0,
                        ))
                    &&& (exists|j: int| 0 <= j < c.permitted.len() && (#[trigger] c.permitted[j]) is Dns)
                        ==> (exists|j: int|
                        0 <= j < c.permitted.len() && (#[trigger] c.permitted[j]) is Dns && in_dns_subtree(
                            d,
                            c.permitted[j]->Dns_0,
                        ))
                },
                GeneralNameView::Ip(a) => {
                    &&& forall|j: int|
                        0 <= j < c.excluded.len() ==> !((#[trigger] c.excluded[j]) is Ip && in_ip_subtree(
                            a,
                            c.excluded[j]->Ip_0,
                        ))
                    &&& (exists|j: int| 0 <= j < c.permitted.len() && (#[trigger] c.permitted[j]) is Ip) ==> (
                    exists|j: int|
                        0 <= j < c.permitted.len() && (#[trigger] c.permitted[j]) is Ip && in_ip_subtree(
                            a,
                            c.permitted[j]->Ip_0,
                        ))
                },
                GeneralNameView::Other(_, _) => true,
            } by {
                let one = seq![names[j]];
                assert(names_within(c, one));
                assert(one[0] == names[j]);
            }
        }
    }
}

/// Whether a certificate can be read and is valid at a time.
pub open spec fn in_force(c: PathCertView, now: i64) -> bool {
    profile(c.extensions) is Ok && c.validity.not_before.0 <= now <= c.validity.not_after.0
}

/// What a certificate's extensions say.
pub open spec fn says(c: PathCertView) -> ProfileView {
    profile(c.extensions)->Ok_0
}

/// Whether a certificate is that of a server with a name: it is no authority's, what
/// it may be used for, where that is said, includes signatures and servers, and one of
/// its names is the server's.
pub open spec fn is_server(p: ProfileView, host: Seq<u8>) -> bool {
    &&& !(p.basic matches Some(b) && b.ca)
    &&& p.usage matches Some(u) ==> u & 1 == 1
    &&& p.purpose matches Some(x) ==> x.0
    &&& exists|i: int|
        0 <= i < p.names.len() && match ip_address(host) {
            Some(a) => #[trigger] p.names[i] == GeneralNameView::Ip(a),
            None => p.names[i] is Dns && name_matches(p.names[i]->Dns_0, host),
        }
}

/// Whether the certificate at place `k` of a path may sign for the ones before it: it
/// has the name of the issuer of the one before and verifies its signature; it is an
/// authority's, for paths of that length; what it may be used for, where that is said,
/// includes certificates and servers; and its constraints allow all names before it.
pub open spec fn signs_for(v: SearchView, path: Seq<u8>, k: int) -> bool {
    let c = v.certs[path[k] as int];
    let p = says(c);
    let subject = v.certs[path[k - 1] as int];
    &&& same_name(c.subject, subject.issuer)
    &&& signature_holds(subject, c.spki)
    &&& p.basic matches Some(b) && b.ca && (b.path_len_constraint matches Some(n) ==> k - 1 <= n)
    &&& p.usage matches Some(u) ==> u & 32 == 32
    &&& p.purpose matches Some(x) ==> x.0 || x.1
    &&& p.constraints matches Some(n) ==> forall|j: int|
        0 <= j < k ==> names_within(n, says(v.certs[(#[trigger] path[j]) as int]).names)
}

/// Whether the first trust anchor that has something to say of the last certificate
/// issued it, and allows the path.
pub open spec fn rests_on_anchor(v: SearchView, path: Seq<u8>) -> bool {
    let last = v.certs[path.last() as int];
    exists|m: int|
        #![trigger v.anchors[m]]
        {
            &&& 0 <= m < v.anchors.len()
            &&& comparable_anchor(v.anchors[m], last)
            &&& issued_by_anchor(v.anchors[m], last)
            &&& forall|j: int|
                0 <= j < m ==> comparable_anchor(#[trigger] v.anchors[j], last) && !issued_by_anchor(
                    v.anchors[j],
                    last,
                )
            &&& match anchor_constraints(v.anchors[m].constraints) {
                Err(_) => false,
                Ok(None) => true,
                Ok(Some(AnchorMatchView::Parsed(n))) => forall|j: int|
                    0 <= j < path.len() ==> names_within(n, says(v.certs[(#[trigger] path[j]) as int]).names),
                Ok(Some(AnchorMatchView::Prepared(p))) => prepared_verdict(p, profiles(v, path)) is Ok,
            }
        }
}

/// Whether a path makes a chain valid for a host: it starts with the first
/// certificate, has none twice, each is in force, the first is the server's, each
/// other one signs for those before it, and the last rests on a trust anchor.
pub open spec fn valid_path(v: SearchView, host: Seq<u8>, path: Seq<u8>) -> bool {
    &&& 0 < path.len() <= v.certs.len()
    &&& path[0] == 0
    &&& path.no_duplicates()
    &&& forall|k: int|
        0 <= k < path.len() ==> (#[trigger] path[k]) < v.certs.len() && in_force(v.certs[path[k] as int], v.now)
    &&& is_server(says(v.certs[0]), host)
    &&& forall|k: int| 0 < k < path.len() ==> #[trigger] signs_for(v, path, k)
    &&& rests_on_anchor(v, path)
}

proof fn lemma_server(p: ProfileView, host: Seq<u8>)
    ensures
        is_server(p, host) == leaf_verdict(p, host) is Ok,
{
    match ip_address(host) {
        Some(a) => {
            let k = |n: GeneralNameView| n == GeneralNameView::Ip(a);
            if is_server(p, host) {
                let i = choose|i: int|
                    0 <= i < p.names.len() && #[trigger] p.names[i] == GeneralNameView::Ip(a);
                assert(k(p.names[i]));
            }
            if names_host(p.names, host) {
                let i = choose|i: int| 0 <= i < p.names.len() && k(#[trigger] p.names[i]);
                assert(p.names[i] == GeneralNameView::Ip(a));
            }
        },
        None => {
            let k = |n: GeneralNameView| n is Dns && name_matches(n->Dns_0, host);
            if is_server(p, host) {
                let i = choose|i: int|
                    0 <= i < p.names.len() && (#[trigger] p.names[i]) is Dns && name_matches(
                        p.names[i]->Dns_0,
                        host,
                    );
                assert(k(p.names[i]));
            }
            if names_host(p.names, host) {
                let i = choose|i: int| 0 <= i < p.names.len() && k(#[trigger] p.names[i]);
                assert(p.names[i] is Dns && name_matches(p.names[i]->Dns_0, host));
            }
        },
    }
}

proof fn lemma_profiles(v: SearchView, path: Seq<u8>, k: int)
    requires
        0 <= k <= path.len(),
        forall|j: int| 0 <= j < k ==> in_force(v.certs[(#[trigger] path[j]) as int], v.now),
    ensures
        profiles(v, path.take(k)).len() == k,
        forall|j: int|
            0 <= j < k ==> #[trigger] profiles(v, path.take(k))[j] == says(v.certs[path[j] as int]),
{
    assert forall|j: int| 0 <= j < k implies #[trigger] profiles(v, path.take(k))[j] == says(
        v.certs[path[j] as int],
    ) by {
        assert(path.take(k)[j] == path[j]);
        assert(in_force(v.certs[path[j] as int], v.now));
    }
}

proof fn lemma_link(v: SearchView, path: Seq<u8>, k: int)
    requires
        0 < k < path.len() <= v.certs.len() <= MAX_LEN,
        forall|j: int| 0 <= j < k ==> in_force(v.certs[(#[trigger] path[j]) as int], v.now),
    ensures
        (is_candidate(v, path.take(k), path[k] as int) && link(v, path.take(k), path[k] as int) is Ok) == (
        !path.take(k).contains(path[k]) && in_force(v.certs[path[k] as int], v.now) && signs_for(v, path, k)),
{
    reveal(is_candidate);
    reveal(link);
    let c = v.certs[path[k] as int];
    let below = profiles(v, path.take(k));
    lemma_profiles(v, path, k);
    assert(path.take(k).last() == path[k - 1]);
    let p = says(c);
    if let Some(n) = p.constraints {
        law_constraints_bind_every_name(n, below);
        if forall|j: int| 0 <= j < k ==> names_within(n, says(v.certs[(#[trigger] path[j]) as int]).names) {
            assert forall|i: int| 0 <= i < below.len() implies names_within(n, (#[trigger] below[i]).names) by {
                assert(names_within(n, says(v.certs[path[i] as int]).names));
            }
        }
        if forall|i: int| 0 <= i < below.len() ==> names_within(n, (#[trigger] below[i]).names) {
            assert forall|j: int| 0 <= j < k implies names_within(
                n,
                says(v.certs[(#[trigger] path[j]) as int]).names,
            ) by {
                assert(names_within(n, below[j].names));
            }
        }
    }
}

proof fn lemma_anchored(v: SearchView, path: Seq<u8>)
    requires
        0 < path.len(),
        forall|j: int| 0 <= j < path.len() ==> in_force(v.certs[(#[trigger] path[j]) as int], v.now),
    ensures
        (anchored(v, path) == Ok::<bool, Error>(true)) == rests_on_anchor(v, path),
{
    reveal(anchored);
    let last = v.certs[path.last() as int];
    lemma_profiles(v, path, path.len() as int);
    assert(path.take(path.len() as int) =~= path);
    let below = profiles(v, path);
    assert forall|n: ConstraintsView| (#[trigger] constraints_verdict(n, below) is Ok) == (forall|j: int|
        0 <= j < path.len() ==> names_within(n, says(v.certs[(#[trigger] path[j]) as int]).names)) by {
        law_constraints_bind_every_name(n, below);
        if forall|j: int|
            0 <= j < path.len() ==> names_within(n, says(v.certs[(#[trigger] path[j]) as int]).names) {
            assert forall|i: int| 0 <= i < below.len() implies names_within(n, (#[trigger] below[i]).names) by {
                assert(names_within(n, says(v.certs[path[i] as int]).names));
            }
        }
        if forall|i: int| 0 <= i < below.len() ==> names_within(n, (#[trigger] below[i]).names) {
            assert forall|j: int| 0 <= j < path.len() implies names_within(
                n,
                says(v.certs[(#[trigger] path[j]) as int]).names,
            ) by {
                assert(names_within(n, below[j].names));
            }
        }
    }
    if rests_on_anchor(v, path) {
        let m = choose|m: int|
            #![trigger v.anchors[m]]
            {
                &&& 0 <= m < v.anchors.len()
                &&& comparable_anchor(v.anchors[m], last)
                &&& issued_by_anchor(v.anchors[m], last)
                &&& forall|j: int|
                    0 <= j < m ==> comparable_anchor(#[trigger] v.anchors[j], last) && !issued_by_anchor(
                        v.anchors[j],
                        last,
                    )
                &&& match anchor_constraints(v.anchors[m].constraints) {
                    Err(_) => false,
                    Ok(None) => true,
                    Ok(Some(AnchorMatchView::Parsed(n))) => forall|j: int|
                        0 <= j < path.len() ==> names_within(
                            n,
                            says(v.certs[(#[trigger] path[j]) as int]).names,
                        ),
                    Ok(Some(AnchorMatchView::Prepared(p))) => prepared_verdict(p, profiles(v, path)) is Ok,
                }
            };
        law_anchor_speaks_for_its_own(v.anchors[m], last);
        law_first_anchor_decides(v.anchors, last, m);
    }
    if anchored(v, path) == Ok::<bool, Error>(true) {
        let m = lemma_decider(v.anchors, last, 0);
        assert(v.anchors[m] == v.anchors[m]);
        assert forall|j: int| 0 <= j < m implies comparable_anchor(#[trigger] v.anchors[j], last)
            && !issued_by_anchor(v.anchors[j], last) by {
            assert(anchor_verdict(v.anchors[j], last) == Ok::<Option<Option<AnchorMatchView>>, Error>(None));
        }
    }
}

proof fn lemma_decider(anchors: Seq<AnchorView>, c: PathCertView, i: int) -> (m: int)
    requires
        0 <= i <= anchors.len(),
        anchors_verdict(anchors, c, i) != Ok::<Option<Option<AnchorMatchView>>, Error>(None),
    ensures
        i <= m < anchors.len(),
        anchor_verdict(anchors[m], c) == anchors_verdict(anchors, c, i),
        forall|j: int|
            i <= j < m ==> anchor_verdict(#[trigger] anchors[j], c) == Ok::<
                Option<Option<AnchorMatchView>>,
                Error,
            >(None),
    decreases anchors.len() - i,
{
    if anchor_verdict(anchors[i], c) == Ok::<Option<Option<AnchorMatchView>>, Error>(None) {
        lemma_decider(anchors, c, i + 1)
    } else {
        i
    }
}

proof fn lemma_prefix_in_force(v: SearchView, path: Seq<u8>, k: int)
    requires
        reaches_anchor(v, path),
        v.certs.len() <= MAX_LEN,
        in_force(v.certs[0], v.now),
        0 < k <= path.len(),
    ensures
        forall|j: int| 0 <= j < k ==> in_force(v.certs[(#[trigger] path[j]) as int], v.now),
        forall|j: int| 0 < j < k ==> #[trigger] signs_for(v, path, j),
        forall|j: int| 0 < j < k ==> !path.take(j).contains(#[trigger] path[j]),
    decreases k,
{
    if k > 1 {
        lemma_prefix_in_force(v, path, k - 1);
        assert(path[k - 1] == path[k - 1]);
        lemma_link(v, path, k - 1);
    }
}

proof fn lemma_reached_is_valid(v: SearchView, host: Seq<u8>, path: Seq<u8>)
    requires
        0 < v.certs.len() <= MAX_LEN,
        reaches_anchor(v, path),
        in_force(v.certs[0], v.now),
        is_server(says(v.certs[0]), host),
    ensures
        valid_path(v, host, path),
{
    let n = path.len() as int;
    lemma_prefix_in_force(v, path, n);
    lemma_anchored(v, path);
    assert forall|i: int, j: int| 0 <= i < n && 0 <= j < n && i != j implies path[i] != path[j] by {
        let (a, b) = if i < j {
            (i, j)
        } else {
            (j, i)
        };
        if path[a] == path[b] {
            assert(path.take(b)[a] == path[b]);
            assert(path.take(b).contains(path[b]));
        }
    }
    assert forall|k: int| 0 <= k < n implies (#[trigger] path[k]) < v.certs.len() && in_force(
        v.certs[path[k] as int],
        v.now,
    ) by {
        if k > 0 {
            assert(path[k] < v.certs.len());
        }
    }
}

proof fn lemma_valid_reaches(v: SearchView, host: Seq<u8>, path: Seq<u8>)
    requires
        0 < v.certs.len() <= MAX_LEN,
        valid_path(v, host, path),
    ensures
        reaches_anchor(v, path),
        in_force(v.certs[0], v.now),
        is_server(says(v.certs[0]), host),
{
    assert(in_force(v.certs[path[0] as int], v.now));
    lemma_anchored(v, path);
    assert forall|k: int| #![trigger path[k]] 0 < k < path.len() implies path[k] > 0 && path[k]
        < v.certs.len() && is_candidate(v, path.take(k), path[k] as int) && link(
        v,
        path.take(k),
        path[k] as int,
    ) is Ok by {
        assert(signs_for(v, path, k));
        assert(!path.take(k).contains(path[k])) by {
            if path.take(k).contains(path[k]) {
                let j = choose|j: int| 0 <= j < path.take(k).len() && path.take(k)[j] == path[k];
                assert(path[j] == path[k]);
            }
        }
        lemma_link(v, path, k);
        assert(path[0] != path[k]);
    }
}

proof fn lemma_search_says(v: SearchView, host: Seq<u8>)
    requires
        0 < v.certs.len() <= MAX_LEN,
    ensures
        search_verdict(v, host) is Ok <==> {
            &&& in_force(v.certs[0], v.now)
            &&& is_server(says(v.certs[0]), host)
            &&& exists|path: Seq<u8>| #[trigger] reaches_anchor(v, path)
        },
{
    reveal(search_verdict);
    law_search_complete(v);
    lemma_server(says(v.certs[0]), host);
}

/// A chain is valid for a host exactly if there is a path among its certificates that
/// makes it so.
pub proof fn law_valid_chain_is_a_path(v: SearchView, host: Seq<u8>)
    requires
        0 < v.certs.len() <= MAX_LEN,
    ensures
        search_verdict(v, host) is Ok <==> exists|path: Seq<u8>| #[trigger] valid_path(v, host, path),
{
    lemma_search_says(v, host);
    if search_verdict(v, host) is Ok {
        let path = choose|path: Seq<u8>| #[trigger] reaches_anchor(v, path);
        lemma_reached_is_valid(v, host, path);
    }
    if exists|path: Seq<u8>| #[trigger] valid_path(v, host, path) {
        let path = choose|path: Seq<u8>| #[trigger] valid_path(v, host, path);
        lemma_valid_reaches(v, host, path);
    }
}

} // verus!
