//! What a server and a client come to terms on.

use vstd::prelude::*;

use crate::codec::get_vec8;
use crate::crypto::kx::{group_id, KexGroup};
use crate::extension::{find_extension, lemma_find_extension, ExtensionView};
use crate::handshake::ClientHelloView;
use crate::proto::{alpn_list, client_shares, first_share, selected_share, u16_vec16, u16_vec8, ShareView};
use crate::psk::whole;
use crate::record::{suite_id, CipherSuite};
use crate::server::flight::encodable;
use crate::server::hello::{
    chosen_group, chosen_suite, client_cert_type, hello_terms, no_offers, offer_read, offers_read, picked, OffersView,
};
use crate::server::machine::{flight, FlightTerms, HelloInputs, ServerView};
use crate::{Error, EventView};

verus! {

/// How a server ranks its suites, the best first.
pub open spec fn suite_rank(s: CipherSuite) -> int {
    match s {
        CipherSuite::Aes128GcmSha256 => 0,
        CipherSuite::ChaCha20Poly1305Sha256 => 1,
        CipherSuite::Aes256GcmSha384 => 2,
    }
}

/// How a server ranks its groups, the best first.
pub open spec fn group_rank(g: KexGroup) -> int {
    match g {
        KexGroup::X25519 => 0,
        KexGroup::Secp256r1 => 1,
        KexGroup::X25519Mlkem768 => 2,
    }
}

/// A suite is chosen exactly if the client offers it and none that ranks before it.
pub proof fn law_best_suite(offered: Seq<u16>, s: CipherSuite)
    ensures
        chosen_suite(offered) == Some(s) <==> {
            &&& offered.contains(suite_id(s))
            &&& forall|t: CipherSuite| suite_rank(t) < suite_rank(s) ==> !offered.contains(#[trigger] suite_id(t))
        },
        suite_id(CipherSuite::Aes128GcmSha256) == 0x1301,
        suite_id(CipherSuite::Aes256GcmSha384) == 0x1302,
        suite_id(CipherSuite::ChaCha20Poly1305Sha256) == 0x1303,
{
    assert(offered.contains(suite_id(CipherSuite::Aes128GcmSha256)) || !offered.contains(
        suite_id(CipherSuite::Aes128GcmSha256),
    ));
    assert(offered.contains(suite_id(CipherSuite::ChaCha20Poly1305Sha256)) || !offered.contains(
        suite_id(CipherSuite::ChaCha20Poly1305Sha256),
    ));
}

/// A group is asked for exactly if the client supports it and none that ranks before
/// it.
pub proof fn law_best_group(offered: Seq<u16>, g: KexGroup)
    ensures
        chosen_group(offered) == Some(g) <==> {
            &&& offered.contains(group_id(g))
            &&& forall|h: KexGroup| group_rank(h) < group_rank(g) ==> !offered.contains(#[trigger] group_id(h))
        },
        group_id(KexGroup::X25519) == 0x001d,
        group_id(KexGroup::Secp256r1) == 0x0017,
        group_id(KexGroup::X25519Mlkem768) == 0x11ec,
{
    assert(offered.contains(group_id(KexGroup::X25519)) || !offered.contains(group_id(KexGroup::X25519)));
    assert(offered.contains(group_id(KexGroup::Secp256r1)) || !offered.contains(group_id(KexGroup::Secp256r1)));
}

/// Where a share in a group comes first among shares.
pub open spec fn shared_first(l: Seq<ShareView>, g: KexGroup, pk: Seq<u8>) -> bool {
    exists|i: int|
        #![trigger l[i]]
        0 <= i < l.len() && l[i] == (group_id(g), pk) && forall|j: int| 0 <= j < i ==> l[j].0 != group_id(g)
}

proof fn lemma_first_share_is(l: Seq<ShareView>, g: KexGroup)
    ensures
        forall|pk: Seq<u8>| first_share(l, group_id(g)) == Some(pk) <==> #[trigger] shared_first(l, g, pk),
        first_share(l, group_id(g)) is None <==> forall|i: int| 0 <= i < l.len() ==> (#[trigger] l[i]).0 != group_id(g),
    decreases l.len(),
{
    if l.len() > 0 {
        let rest = l.skip(1);
        lemma_first_share_is(rest, g);
        if l[0].0 == group_id(g) {
            assert forall|pk: Seq<u8>| first_share(l, group_id(g)) == Some(pk) <==> #[trigger] shared_first(
                l,
                g,
                pk,
            ) by {
                assert(l[0] == (group_id(g), l[0].1));
                if shared_first(l, g, pk) {
                    let i = choose|i: int|
                        #![trigger l[i]]
                        0 <= i < l.len() && l[i] == (group_id(g), pk) && forall|j: int|
                            0 <= j < i ==> l[j].0 != group_id(g);
                    assert(i == 0);
                }
            }
        } else {
            assert forall|pk: Seq<u8>| shared_first(rest, g, pk) <==> #[trigger] shared_first(l, g, pk) by {
                if shared_first(rest, g, pk) {
                    let i = choose|i: int|
                        #![trigger rest[i]]
                        0 <= i < rest.len() && rest[i] == (group_id(g), pk) && forall|j: int|
                            0 <= j < i ==> rest[j].0 != group_id(g);
                    assert(l[i + 1] == (group_id(g), pk));
                    assert forall|j: int| 0 <= j < i + 1 implies l[j].0 != group_id(g) by {
                        if j > 0 {
                            assert(rest[j - 1].0 != group_id(g));
                        }
                    }
                }
                if shared_first(l, g, pk) {
                    let i = choose|i: int|
                        #![trigger l[i]]
                        0 <= i < l.len() && l[i] == (group_id(g), pk) && forall|j: int|
                            0 <= j < i ==> l[j].0 != group_id(g);
                    assert(rest[i - 1] == (group_id(g), pk));
                    assert forall|j: int| 0 <= j < i - 1 implies rest[j].0 != group_id(g) by {
                        assert(l[j + 1].0 != group_id(g));
                    }
                }
            }
            assert((forall|i: int| 0 <= i < rest.len() ==> (#[trigger] rest[i]).0 != group_id(g)) ==> (forall|i: int|
                0 <= i < l.len() ==> (#[trigger] l[i]).0 != group_id(g))) by {
                if forall|i: int| 0 <= i < rest.len() ==> (#[trigger] rest[i]).0 != group_id(g) {
                    assert forall|i: int| 0 <= i < l.len() implies (#[trigger] l[i]).0 != group_id(g) by {
                        if i > 0 {
                            assert(rest[i - 1].0 != group_id(g));
                        }
                    }
                }
            }
            assert((forall|i: int| 0 <= i < l.len() ==> (#[trigger] l[i]).0 != group_id(g)) ==> (forall|i: int|
                0 <= i < rest.len() ==> (#[trigger] rest[i]).0 != group_id(g))) by {
                if forall|i: int| 0 <= i < l.len() ==> (#[trigger] l[i]).0 != group_id(g) {
                    assert forall|i: int| 0 <= i < rest.len() implies (#[trigger] rest[i]).0 != group_id(g) by {
                        assert(l[i + 1].0 != group_id(g));
                    }
                }
            }
        }
    }
}

proof fn lemma_selected(l: Seq<ShareView>)
    ensures
        selected_share(l, KexGroup::SUPPORTED@) == match first_share(l, group_id(KexGroup::X25519)) {
            Some(pk) => Some((KexGroup::X25519, pk)),
            None => match first_share(l, group_id(KexGroup::Secp256r1)) {
                Some(pk) => Some((KexGroup::Secp256r1, pk)),
                None => match first_share(l, group_id(KexGroup::X25519Mlkem768)) {
                    Some(pk) => Some((KexGroup::X25519Mlkem768, pk)),
                    None => None,
                },
            },
        },
{
    let s = KexGroup::SUPPORTED@;
    let s1 = s.skip(1);
    let s2 = s1.skip(1);
    assert(s1[0] == s[1] && s2[0] == s[2]);
    assert(s2.skip(1).len() == 0);
    assert(selected_share(l, s2.skip(1)) is None);
    assert(selected_share(l, s2) == match first_share(l, group_id(s2[0])) {
        Some(pk) => Some((s2[0], pk)),
        None => selected_share(l, s2.skip(1)),
    });
    assert(selected_share(l, s1) == match first_share(l, group_id(s1[0])) {
        Some(pk) => Some((s1[0], pk)),
        None => selected_share(l, s2),
    });
}

/// The share that a server goes on with is the client's first in its group, and the
/// client sent none in a group that ranks before it.
pub proof fn law_best_share(l: Seq<ShareView>, g: KexGroup, pk: Seq<u8>)
    ensures
        selected_share(l, KexGroup::SUPPORTED@) == Some((g, pk)) <==> {
            &&& shared_first(l, g, pk)
            &&& forall|h: KexGroup, i: int|
                #![trigger group_rank(h), l[i]]
                group_rank(h) < group_rank(g) && 0 <= i < l.len() ==> l[i].0 != group_id(h)
        },
{
    lemma_selected(l);
    lemma_first_share_is(l, KexGroup::X25519);
    lemma_first_share_is(l, KexGroup::Secp256r1);
    lemma_first_share_is(l, KexGroup::X25519Mlkem768);
    let found = first_share(l, group_id(g));
    assert(found == Some(pk) <==> shared_first(l, g, pk));
    assert forall|h: KexGroup| first_share(l, group_id(h)) is None <==> forall|i: int|
        0 <= i < l.len() ==> (#[trigger] l[i]).0 != group_id(h) by {
        lemma_first_share_is(l, h);
    }
    let better = forall|h: KexGroup| group_rank(h) < group_rank(g) ==> first_share(l, #[trigger] group_id(h)) is None;
    let unsent = forall|h: KexGroup, i: int|
        #![trigger group_rank(h), l[i]]
        group_rank(h) < group_rank(g) && 0 <= i < l.len() ==> l[i].0 != group_id(h);
    if better {
        assert forall|h: KexGroup, i: int|
            #![trigger group_rank(h), l[i]]
            group_rank(h) < group_rank(g) && 0 <= i < l.len() implies l[i].0 != group_id(h) by {
            assert(first_share(l, group_id(h)) is None);
        }
    }
    if unsent {
        assert forall|h: KexGroup| group_rank(h) < group_rank(g) implies first_share(
            l,
            #[trigger] group_id(h),
        ) is None by {
            assert forall|i: int| 0 <= i < l.len() implies (#[trigger] l[i]).0 != group_id(h) by {
                assert(group_rank(h) < group_rank(g));
            }
        }
    }
    assert(better == unsent);
    assert(selected_share(l, KexGroup::SUPPORTED@) == Some((g, pk)) <==> found == Some(pk) && better) by {
        assert(better ==> (group_rank(g) > 0 ==> first_share(l, group_id(KexGroup::X25519)) is None) && (group_rank(g)
            > 1 ==> first_share(l, group_id(KexGroup::Secp256r1)) is None));
    }
}

/// Whether an extension lists a code point behind a length of one byte.
pub open spec fn lists8(exts: Seq<ExtensionView>, ty: u16, v: u16) -> bool {
    find_extension(exts, ty) matches Some(d) && u16_vec8(d) matches Ok(l) && l.contains(v)
}

/// Whether an extension lists a code point behind a length of two bytes.
pub open spec fn lists16(exts: Seq<ExtensionView>, ty: u16, v: u16) -> bool {
    find_extension(exts, ty) matches Some(d) && u16_vec16(d) matches Ok(l) && l.contains(v)
}

/// A ClientHello is gone on with exactly if it has no compression and a short session
/// id, offers TLS 1.3, a group and the server's signature scheme, and its shares can be
/// read; then the group is the best that it supports, and the share the best that it
/// sent.
pub proof fn law_hello_terms(ch: ClientHelloView, scheme: u16)
    ensures
        hello_terms(ch, scheme) is Ok <==> {
            &&& ch.legacy_compression_methods == seq![0u8]
            &&& ch.legacy_session_id.len() <= 32
            &&& lists8(ch.extensions, 43, 0x0304)
            &&& lists16(ch.extensions, 10, 0x001d) || lists16(ch.extensions, 10, 0x0017) || lists16(
                ch.extensions,
                10,
                0x11ec,
            )
            &&& lists16(ch.extensions, 13, scheme)
            &&& find_extension(ch.extensions, 51) matches Some(d) ==> client_shares(d) is Ok
        },
        hello_terms(ch, scheme) matches Ok((g, s)) ==> {
            &&& lists16(ch.extensions, 10, group_id(g))
            &&& forall|h: KexGroup| group_rank(h) < group_rank(g) ==> !lists16(ch.extensions, 10, #[trigger] group_id(h))
            &&& s is Some ==> find_extension(ch.extensions, 51) is Some
            &&& match find_extension(ch.extensions, 51) {
                None => s is None,
                Some(d) => {
                    let l = client_shares(d)->Ok_0;
                    &&& s matches Some(c) ==> shared_first(l, c.0, c.1) && forall|h: KexGroup, i: int|
                        #![trigger group_rank(h), l[i]]
                        group_rank(h) < group_rank(c.0) && 0 <= i < l.len() ==> l[i].0 != group_id(h)
                    &&& s is None ==> forall|h: KexGroup, pk: Seq<u8>| !#[trigger] shared_first(l, h, pk)
                },
            }
        },
{
    if let Some(d) = find_extension(ch.extensions, 10) {
        if let Ok(l) = u16_vec16(d) {
            law_best_group(l, KexGroup::X25519);
            law_best_group(l, KexGroup::Secp256r1);
            law_best_group(l, KexGroup::X25519Mlkem768);
        }
    }
    if let Some(d) = find_extension(ch.extensions, 51) {
        if let Ok(l) = client_shares(d) {
            match selected_share(l, KexGroup::SUPPORTED@) {
                Some((g, pk)) => law_best_share(l, g, pk),
                None => {
                    assert forall|h: KexGroup, pk: Seq<u8>| !#[trigger] shared_first(l, h, pk) by {
                        lemma_none_selected(l, h, pk);
                    }
                },
            }
        }
    }
}

proof fn lemma_none_selected(l: Seq<ShareView>, h: KexGroup, pk: Seq<u8>)
    requires
        selected_share(l, KexGroup::SUPPORTED@) is None,
    ensures
        !shared_first(l, h, pk),
{
    lemma_selected(l);
    lemma_first_share_is(l, h);
    assert(shared_first(l, h, pk) ==> first_share(l, group_id(h)) == Some(pk));
}

/// What is wrong with a ClientHello is told: each refusal has its own reason, the first
/// that applies.
pub proof fn law_hello_refusals(ch: ClientHelloView, scheme: u16)
    ensures
        ch.legacy_compression_methods != seq![0u8] ==> hello_terms(ch, scheme) == Err::<
            (KexGroup, Option<(KexGroup, Seq<u8>)>),
            Error,
        >(Error::IllegalParameter),
        ch.legacy_compression_methods == seq![0u8] && ch.legacy_session_id.len() <= 32 ==> {
            &&& find_extension(ch.extensions, 43) is None ==> hello_terms(ch, scheme) == Err::<
                (KexGroup, Option<(KexGroup, Seq<u8>)>),
                Error,
            >(Error::MissingExtension)
            &&& (find_extension(ch.extensions, 43) matches Some(d) && u16_vec8(d) matches Ok(l) && !l.contains(
                0x0304,
            )) ==> hello_terms(ch, scheme) == Err::<(KexGroup, Option<(KexGroup, Seq<u8>)>), Error>(
                Error::BadVersion,
            )
            &&& lists8(ch.extensions, 43, 0x0304) ==> {
                &&& find_extension(ch.extensions, 10) is None ==> hello_terms(ch, scheme) == Err::<
                    (KexGroup, Option<(KexGroup, Seq<u8>)>),
                    Error,
                >(Error::MissingExtension)
                &&& (find_extension(ch.extensions, 10) matches Some(d) && u16_vec16(d) matches Ok(l) && !l.contains(
                    0x001d,
                ) && !l.contains(0x0017) && !l.contains(0x11ec)) ==> hello_terms(ch, scheme) == Err::<
                    (KexGroup, Option<(KexGroup, Seq<u8>)>),
                    Error,
                >(Error::UnsupportedGroup)
                &&& (lists16(ch.extensions, 10, 0x001d) || lists16(ch.extensions, 10, 0x0017) || lists16(
                    ch.extensions,
                    10,
                    0x11ec,
                )) ==> {
                    &&& find_extension(ch.extensions, 13) is None ==> hello_terms(ch, scheme) == Err::<
                        (KexGroup, Option<(KexGroup, Seq<u8>)>),
                        Error,
                    >(Error::MissingExtension)
                    &&& (find_extension(ch.extensions, 13) matches Some(d) && u16_vec16(d) matches Ok(l)
                        && !l.contains(scheme)) ==> hello_terms(ch, scheme) == Err::<
                        (KexGroup, Option<(KexGroup, Seq<u8>)>),
                        Error,
                    >(Error::UnsupportedSigScheme)
                }
            }
        },
{
}

/// The protocol that is picked is the first of the server's own that the client
/// offers.
pub proof fn law_best_protocol(own: Seq<Seq<u8>>, offered: Seq<Seq<u8>>, i: int)
    requires
        0 <= i < own.len(),
        offered.contains(own[i]),
        forall|j: int| 0 <= j < i ==> !offered.contains(#[trigger] own[j]),
    ensures
        picked(own, offered) == Some(own[i]),
    decreases i,
{
    if i > 0 {
        assert(!offered.contains(own[0]));
        let rest = own.skip(1);
        assert(rest[i - 1] == own[i]);
        assert forall|j: int| 0 <= j < i - 1 implies !offered.contains(#[trigger] rest[j]) by {
            assert(rest[j] == own[j + 1]);
        }
        law_best_protocol(rest, offered, i - 1);
    }
}

/// Whether no two extensions have one type.
pub open spec fn types_differ(exts: Seq<ExtensionView>) -> bool {
    forall|i: int, j: int| 0 <= i < j < exts.len() ==> (#[trigger] exts[i]).0 != (#[trigger] exts[j]).0
}

/// What a client's extensions come down to: the protocol picked for it, the types of
/// certificates that it lists, and whether it sends transport parameters, which are
/// handed on as they are. None of this depends on the other extensions or on the order.
pub proof fn law_offers_are_read(own: Seq<Seq<u8>>, before: Option<Seq<u8>>, exts: Seq<ExtensionView>)
    requires
        types_differ(exts),
        offers_read(own, no_offers(before), exts).1 is None,
    ensures
        ({
            let o = offers_read(own, no_offers(before), exts).0;
            &&& o.alpn == match find_extension(exts, 16) {
                Some(d) if own.len() > 0 => picked(own, alpn_list(d)->Ok_0),
                _ => before,
            }
            &&& o.server_types == match find_extension(exts, 20) {
                Some(d) => Some(whole(get_vec8(d))->Ok_0),
                None => None,
            }
            &&& o.client_types == match find_extension(exts, 19) {
                Some(d) => Some(whole(get_vec8(d))->Ok_0),
                None => None,
            }
            &&& o.quic == find_extension(exts, 57) is Some
            &&& o.events == match find_extension(exts, 57) {
                Some(d) => seq![EventView::PeerExtension { ty: 57, data: d }],
                None => Seq::empty(),
            }
        }),
{
    lemma_offers(own, no_offers(before), exts);
}

proof fn lemma_offers(own: Seq<Seq<u8>>, o: OffersView, exts: Seq<ExtensionView>)
    requires
        types_differ(exts),
        offers_read(own, o, exts).1 is None,
    ensures
        ({
            let r = offers_read(own, o, exts).0;
            &&& r.alpn == match find_extension(exts, 16) {
                Some(d) if own.len() > 0 => picked(own, alpn_list(d)->Ok_0),
                _ => o.alpn,
            }
            &&& r.server_types == match find_extension(exts, 20) {
                Some(d) => Some(whole(get_vec8(d))->Ok_0),
                None => o.server_types,
            }
            &&& r.client_types == match find_extension(exts, 19) {
                Some(d) => Some(whole(get_vec8(d))->Ok_0),
                None => o.client_types,
            }
            &&& r.quic == (o.quic || find_extension(exts, 57) is Some)
            &&& r.events == match find_extension(exts, 57) {
                Some(d) => o.events.push(EventView::PeerExtension { ty: 57, data: d }),
                None => o.events,
            }
        }),
    decreases exts.len(),
{
    if exts.len() > 0 {
        let rest = exts.skip(1);
        let (next, e) = offer_read(own, o, exts[0]);
        assert(types_differ(rest)) by {
            assert forall|i: int, j: int| 0 <= i < j < rest.len() implies (#[trigger] rest[i]).0 != (
            #[trigger] rest[j]).0 by {
                assert(rest[i] == exts[i + 1] && rest[j] == exts[j + 1]);
            }
        }
        lemma_offers(own, next, rest);
        assert forall|ty: u16| exts[0].0 == ty implies #[trigger] find_extension(rest, ty) is None by {
            assert forall|j: int| 0 <= j < rest.len() implies (#[trigger] rest[j]).0 != ty by {
                assert(rest[j] == exts[j + 1]);
                assert(exts[0].0 != exts[j + 1].0);
            }
            lemma_find_extension(rest, ty, rest.len() as int);
        }
        let a = find_extension(rest, 16);
        let b = find_extension(rest, 20);
        let c = find_extension(rest, 19);
        let d = find_extension(rest, 57);
    }
}

/// A client's extensions are refused where its protocols, or its lists of certificate
/// types, cannot be read, or where it names protocols and none is the server's.
pub proof fn law_offers_refused(own: Seq<Seq<u8>>, o: OffersView, data: Seq<u8>)
    ensures
        own.len() > 0 && alpn_list(data) is Err ==> offer_read(own, o, (16, data)).1 == Some(Error::Decode),
        own.len() > 0 && alpn_list(data) is Ok && alpn_list(data)->Ok_0.len() > 0 && (forall|i: int|
            0 <= i < own.len() ==> !alpn_list(data)->Ok_0.contains(#[trigger] own[i])) ==> offer_read(
            own,
            o,
            (16, data),
        ).1 == Some(Error::NoApplicationProtocol),
        alpn_list(data) is Ok && (exists|i: int|
            0 <= i < own.len() && alpn_list(data)->Ok_0.contains(#[trigger] own[i])) ==> offer_read(
            own,
            o,
            (16, data),
        ).1 is None,
        own.len() == 0 ==> offer_read(own, o, (16, data)) == (o, None::<Error>),
        whole(get_vec8(data)) is Err ==> offer_read(own, o, (20, data)).1 == Some(Error::Decode) && offer_read(
            own,
            o,
            (19, data),
        ).1 == Some(Error::Decode),
        whole(get_vec8(data)) is Ok ==> offer_read(own, o, (20, data)).1 is None && offer_read(own, o, (19, data)).1
            is None,
        forall|ty: u16|
            ty != 16 && ty != 19 && ty != 20 && ty != 57 ==> #[trigger] offer_read(own, o, (ty, data)) == (
                o,
                None::<Error>,
            ),
{
    if let Ok(l) = alpn_list(data) {
        lemma_picked(own, l);
    }
}

proof fn lemma_picked(own: Seq<Seq<u8>>, offered: Seq<Seq<u8>>)
    ensures
        picked(own, offered) is Some <==> exists|i: int| 0 <= i < own.len() && offered.contains(#[trigger] own[i]),
    decreases own.len(),
{
    if own.len() > 0 {
        let rest = own.skip(1);
        lemma_picked(rest, offered);
        if exists|i: int| 0 <= i < rest.len() && offered.contains(#[trigger] rest[i]) {
            let i = choose|i: int| 0 <= i < rest.len() && offered.contains(#[trigger] rest[i]);
            assert(offered.contains(own[i + 1]));
        }
        if exists|i: int| 0 <= i < own.len() && offered.contains(#[trigger] own[i]) {
            let i = choose|i: int| 0 <= i < own.len() && offered.contains(#[trigger] own[i]);
            if i > 0 {
                assert(offered.contains(rest[i - 1]));
            }
        }
    }
}

/// A flight is sent exactly if the key exchange and the system's randomness gave what
/// it takes, the client accepts the server's type of certificate, the answers fit, and,
/// unless a session is resumed, the server presents and signs.
pub proof fn law_flight_is_sent(v: ServerView, t: FlightTerms, x: HelloInputs)
    ensures
        flight(v, t, x).1 is Ok <==> {
            &&& x.exchange is Some
            &&& x.random is Some
            &&& t.offers.server_types matches Some(l) ==> l.contains(v.config.source.cert_type())
            &&& encodable(
                v.config.source.cert_type(),
                client_cert_type(t.offers.client_types),
                t.offers,
                v.config.transport_params,
                t.early,
            )
            &&& t.psk is None ==> v.config.source.presented() is Ok && x.signature is Some
        },
        flight(v, t, x).1 is Err ==> flight(v, t, x).0.state == v.state,
{
}

} // verus!
