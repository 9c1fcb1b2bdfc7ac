//! What comes of a chain, and what binds it.

use vstd::prelude::*;

use crate::identity::cert;
use crate::identity::cert::ext::scope::{name_constraints, GeneralNameView};
use crate::identity::cert::ext::{
    after_extension, all_extensions, extensions_of, law_extensions_distinct, lemma_extension_consumes, next_extension,
    ExtensionView, ExtensionsView, OID_NAME_CONSTRAINTS,
};
use crate::identity::cert::CertView;
use crate::identity::chain::extensions::{leaf_verdict, names_host, ConstraintsView, ProfileView};
use crate::identity::chain::laws::{law_valid_chain_is_a_path, valid_path};
use crate::identity::chain::reading::{constraints_oid, lacks};
use crate::identity::chain::search::SearchView;
use crate::identity::chain::{
    anchor_constraints, chain_verdict, constraints_among, path_cert, AnchorConstraintsView,
    AnchorMatchView, AnchorView, ChainView, Error,
};

verus! {

/// What comes of a chain: nothing of one that is too long or empty, and of any other that
/// it holds exactly where a path leads from its first certificate to a trust anchor.
pub proof fn law_chain_outcome(v: ChainView, anchors: Seq<AnchorView>, now: i64, host: Seq<u8>)
    requires
        v.certs.len() <= 10,
    ensures
        v.too_long ==> chain_verdict(v, anchors, now, host) == Err::<(), Error>(Error::ChainTooLong),
        !v.too_long && v.certs.len() == 0 ==> chain_verdict(v, anchors, now, host) == Err::<(), Error>(Error::Empty),
        !v.too_long && v.certs.len() > 0 ==> (chain_verdict(v, anchors, now, host) is Ok <==> exists|path: Seq<u8>|
            #[trigger] valid_path(SearchView { certs: v.certs, anchors, now }, host, path)),
{
    if !v.too_long && v.certs.len() > 0 {
        law_valid_chain_is_a_path(SearchView { certs: v.certs, anchors, now }, host);
    }
}

/// What is gone by of a certificate is what it says: what is signed and its signature, the
/// names, the times, the key and the extensions.
pub proof fn law_certificate_is_taken(c: CertView)
    ensures
        ({
            let p = path_cert(c);
            &&& p.tbs_der == c.tbs_der && p.signature == c.signature && p.algorithm == c.tbs.signature_alg
            &&& p.issuer == c.tbs.issuer && p.subject == c.tbs.subject && p.issuer_key == c.tbs.issuer_key
            &&& p.validity.not_before == c.tbs.validity.not_before
            &&& p.validity.not_after == c.tbs.validity.not_after
            &&& p.spki.key == c.tbs.spki.key && p.spki.algorithm == c.tbs.spki.algorithm
            &&& c.tbs.extensions is Some ==> p.extensions == c.tbs.extensions->0
            &&& c.tbs.extensions is None ==> p.extensions.len() == 0
        }),
{
}

/// Why a certificate is not one of a server, in the order in which the reasons count: it
/// is an authority's, its key is not for signing, its purpose is another, or it does not
/// name the host.
pub proof fn law_why_not_a_server(p: ProfileView, host: Seq<u8>)
    ensures
        leaf_verdict(p, host) == Err::<(), Error>(Error::NotEndEntity) <==> p.basic is Some && (p.basic->0).ca,
        leaf_verdict(p, host) == Err::<(), Error>(Error::LeafKeyUsageInvalid) <==> !(p.basic is Some && (p.basic->0).ca)
            && p.usage is Some && p.usage->0 & 1 != 1,
        leaf_verdict(p, host) == Err::<(), Error>(Error::NoServerAuth) <==> !(p.basic is Some && (p.basic->0).ca) && (
        p.usage is Some ==> p.usage->0 & 1 == 1) && p.purpose is Some && !(p.purpose->0).0,
        leaf_verdict(p, host) == Err::<(), Error>(Error::HostnameMismatch) <==> !(p.basic is Some && (p.basic->0).ca) && (
        p.usage is Some ==> p.usage->0 & 1 == 1) && (p.purpose is Some ==> (p.purpose->0).0) && !names_host(
            p.names,
            host,
        ),
        leaf_verdict(p, host) is Ok ==> names_host(p.names, host),
{
}

/// The constraints that a list of subtrees in an extension gives.
pub open spec fn constraints_said(value: Seq<u8>) -> ConstraintsView {
    let c = name_constraints(value)->Ok_0;
    ConstraintsView {
        permitted: match c.0 {
            Some(l) => l,
            None => Seq::<GeneralNameView>::empty(),
        },
        excluded: match c.1 {
            Some(l) => l,
            None => Seq::<GeneralNameView>::empty(),
        },
    }
}

proof fn lemma_among(v: ExtensionsView, found: Option<ConstraintsView>, l: Seq<ExtensionView>)
    requires
        all_extensions(v) == Ok::<Seq<ExtensionView>, cert::Error>(l),
        forall|i: int, j: int| 0 <= i < j < l.len() ==> (#[trigger] l[i]).oid != (#[trigger] l[j]).oid,
    ensures
        lacks(l, constraints_oid()) ==> constraints_among(v, found) == Ok::<Option<ConstraintsView>, Error>(found),
        forall|i: int|
            0 <= i < l.len() && (#[trigger] l[i]).oid == constraints_oid() ==> if name_constraints(l[i].value) is Ok {
                constraints_among(v, found) == Ok::<Option<ConstraintsView>, Error>(Some(constraints_said(l[i].value)))
            } else {
                constraints_among(v, found) is Err
            },
    decreases v.rest.len(),
{
    assert(OID_NAME_CONSTRAINTS@ =~= constraints_oid());
    match next_extension(v) {
        None => {
            assert(l.len() == 0);
        },
        Some(Err(_)) => {},
        Some(Ok(x)) => {
            lemma_extension_consumes(v.rest);
            let w = after_extension(v);
            let tail = all_extensions(w)->Ok_0;
            assert(l == seq![x] + tail);
            assert(l[0] == x);
            assert forall|i: int| 0 <= i < tail.len() implies #[trigger] tail[i] == l[i + 1] by {}
            assert forall|i: int, j: int| 0 <= i < j < tail.len() implies (#[trigger] tail[i]).oid != (
            #[trigger] tail[j]).oid by {
                assert(l[i + 1].oid != l[j + 1].oid);
            }
            if x.oid == constraints_oid() {
                if name_constraints(x.value) is Ok {
                    lemma_among(w, Some(constraints_said(x.value)), tail);
                    assert(lacks(tail, constraints_oid())) by {
                        assert forall|i: int| 0 <= i < tail.len() implies (#[trigger] tail[i]).oid != constraints_oid() by {
                            assert(l[0].oid != l[i + 1].oid);
                        }
                    }
                }
                assert forall|i: int| 0 <= i < l.len() && (#[trigger] l[i]).oid == constraints_oid() implies i == 0 by {
                    if i > 0 {
                        assert(l[0].oid != l[i].oid);
                    }
                }
            } else {
                lemma_among(w, found, tail);
                if lacks(l, constraints_oid()) {
                    assert forall|i: int| 0 <= i < tail.len() implies (#[trigger] tail[i]).oid != constraints_oid() by {
                        assert(l[i + 1].oid != constraints_oid());
                    }
                }
                assert forall|i: int|
                    0 <= i < l.len() && (#[trigger] l[i]).oid == constraints_oid() implies if name_constraints(
                    l[i].value,
                ) is Ok {
                    constraints_among(v, found) == Ok::<Option<ConstraintsView>, Error>(
                        Some(constraints_said(l[i].value)),
                    )
                } else {
                    constraints_among(v, found) is Err
                } by {
                    assert(i > 0);
                    assert(tail[i - 1] == l[i]);
                }
            }
        },
    }
}

/// What binds the names below a trust anchor: nothing, the constraints that it was given,
/// or those in the extensions of the certificate that it was made from.
pub proof fn law_anchor_binds(der: Seq<u8>, l: Seq<ExtensionView>, i: int)
    ensures
        anchor_constraints(AnchorConstraintsView::Unconstrained) == Ok::<Option<AnchorMatchView>, Error>(None),
        name_constraints(der) is Ok ==> anchor_constraints(AnchorConstraintsView::NameConstraints(der)) == Ok::<
            Option<AnchorMatchView>,
            Error,
        >(Some(AnchorMatchView::Parsed(constraints_said(der)))),
        name_constraints(der) is Err ==> anchor_constraints(AnchorConstraintsView::NameConstraints(der)) is Err,
        all_extensions(extensions_of(der)) == Ok::<Seq<ExtensionView>, cert::Error>(l) && lacks(l, constraints_oid())
            ==> anchor_constraints(AnchorConstraintsView::CertificateExtensions(der)) == Ok::<
            Option<AnchorMatchView>,
            Error,
        >(None),
        all_extensions(extensions_of(der)) == Ok::<Seq<ExtensionView>, cert::Error>(l) && 0 <= i < l.len() && l[i].oid
            == constraints_oid() ==> if name_constraints(l[i].value) is Ok {
            anchor_constraints(AnchorConstraintsView::CertificateExtensions(der)) == Ok::<Option<AnchorMatchView>, Error>(
                Some(AnchorMatchView::Parsed(constraints_said(l[i].value))),
            )
        } else {
            anchor_constraints(AnchorConstraintsView::CertificateExtensions(der)) is Err
        },
{
    if all_extensions(extensions_of(der)) == Ok::<Seq<ExtensionView>, cert::Error>(l) {
        law_extensions_distinct(der);
        lemma_among(extensions_of(der), None, l);
    }
}

} // verus!
