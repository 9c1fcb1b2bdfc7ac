//! What certificates and their extensions say, from their encoding.

use vstd::prelude::*;

use crate::identity::asn1::{
    after_optional, after_tlv, be_nat, der_octets, der_oid, der_tagged, der_tlv, der_tlv_bytes, der_whole, is_oid,
    is_uint, law_der_round_trip, DerError,
};
use crate::identity::cert::algorithm::{
    algorithm_identifier, public_key_algorithm, signature_algorithm, IdentifierView, Signature,
};
use crate::identity::cert::dn::{name_key, rdns};
use crate::identity::cert::ext::scope::{
    general_name_at, general_names, name_constraints, names, subtrees, valid_name, GeneralNameView,
};
use crate::identity::cert::ext::{
    basic_constraints, extended_key_usage, extension_at, key_usage, usages, BasicConstraints, ExtensionView,
};
use crate::identity::cert::{
    certificate, spki_at, spki_contents, spki_whole, tbs_algorithm, tbs_end, tbs_extensions, tbs_fields, tbs_issuer, tbs_serial,
    tbs_subject, tbs_validity, tbs_version, validity, whole_tlv, CertView, Error, SpkiView, TbsView, Validity,
};
use crate::identity::time::{x509_time, UnixTime};

verus! {

/// A value with its tag and length in front.
pub open spec fn tlv(tag: u8, contents: Seq<u8>) -> Seq<u8> {
    der_tlv_bytes(tag, contents)
}

/// A value is read for its tag and its contents, whatever follows it.
pub proof fn lemma_tlv(tag: u8, contents: Seq<u8>, rest: Seq<u8>)
    requires
        tag != 0,
        tag % 32 != 31,
        contents.len() <= usize::MAX,
    ensures
        der_tlv(tlv(tag, contents) + rest) == Ok::<(u8, Seq<u8>, Seq<u8>), DerError>((tag, contents, rest)),
        after_tlv(tlv(tag, contents) + rest) == rest,
        der_tagged(tlv(tag, contents) + rest, tag) == Ok::<Seq<u8>, DerError>(contents),
        (tlv(tag, contents) + rest)[0] == tag,
        (tlv(tag, contents) + rest).len() > contents.len() + rest.len(),
{
    law_der_round_trip(tag, contents, rest);
}

/// A value that is all there is is read whole.
pub proof fn lemma_whole(tag: u8, contents: Seq<u8>)
    requires
        tag != 0,
        tag % 32 != 31,
        contents.len() <= usize::MAX,
    ensures
        der_whole(tlv(tag, contents), tag) == Ok::<Seq<u8>, DerError>(contents),
        der_tagged(tlv(tag, contents), tag) == Ok::<Seq<u8>, DerError>(contents),
        der_tlv(tlv(tag, contents)) == Ok::<(u8, Seq<u8>, Seq<u8>), DerError>((tag, contents, Seq::<u8>::empty())),
        after_tlv(tlv(tag, contents)).len() == 0,
        tlv(tag, contents)[0] == tag,
        tlv(tag, contents).len() > contents.len(),
{
    lemma_tlv(tag, contents, Seq::empty());
    assert(tlv(tag, contents) + Seq::<u8>::empty() =~= tlv(tag, contents));
}

/// An extension: its type, whether it is critical where it is, and its value.
pub open spec fn extension_bytes(oid: Seq<u8>, critical: bool, value: Seq<u8>) -> Seq<u8> {
    tlv(
        0x30,
        tlv(0x06, oid) + (if critical {
            tlv(0x01, seq![0xffu8])
        } else {
            Seq::empty()
        } + tlv(0x04, value)),
    )
}

/// An extension is read for what it says, whatever follows it.
pub proof fn law_extension_is_read(oid: Seq<u8>, critical: bool, value: Seq<u8>, rest: Seq<u8>)
    requires
        is_oid(oid),
        extension_bytes(oid, critical, value).len() <= usize::MAX,
    ensures
        extension_at(extension_bytes(oid, critical, value) + rest) == Ok::<ExtensionView, DerError>(
            ExtensionView { oid, critical, value },
        ),
        after_tlv(extension_bytes(oid, critical, value) + rest) == rest,
{
    reveal(extension_at);
    let flag = if critical {
        tlv(0x01, seq![0xffu8])
    } else {
        Seq::empty()
    };
    let tail = flag + tlv(0x04, value);
    let c = tlv(0x06, oid) + tail;
    assert(extension_bytes(oid, critical, value) == tlv(0x30, c));
    assert(c.len() < tlv(0x30, c).len());
    assert(tlv(0x04, value).len() > value.len());
    assert(tlv(0x06, oid).len() > oid.len());
    lemma_tlv(0x30, c, rest);
    lemma_tlv(0x06, oid, tail);
    lemma_whole(0x04, value);
    if critical {
        lemma_tlv(0x01, seq![0xffu8], tlv(0x04, value));
    } else {
        assert(tail =~= tlv(0x04, value));
    }
}

/// The basic constraints of an extension: whether its subject is an authority, and
/// how many authorities may follow below it.
pub proof fn law_basic_constraints_are_read(limit: u8)
    requires
        limit < 128,
    ensures
        basic_constraints(tlv(0x30, Seq::empty())) == Ok::<BasicConstraints, DerError>(
            BasicConstraints { ca: false, path_len_constraint: None },
        ),
        basic_constraints(tlv(0x30, tlv(0x01, seq![0xffu8]))) == Ok::<BasicConstraints, DerError>(
            BasicConstraints { ca: true, path_len_constraint: None },
        ),
        basic_constraints(tlv(0x30, tlv(0x01, seq![0xffu8]) + tlv(0x02, seq![limit]))) == Ok::<
            BasicConstraints,
            DerError,
        >(BasicConstraints { ca: true, path_len_constraint: Some(limit as u64) }),
        basic_constraints(tlv(0x30, tlv(0x02, seq![limit]))) is Err,
{
    let yes = tlv(0x01, seq![0xffu8]);
    let n = tlv(0x02, seq![limit]);
    assert(yes.len() == 3 && n.len() == 3);
    lemma_whole(0x30, Seq::empty());
    lemma_whole(0x30, yes);
    lemma_whole(0x30, yes + n);
    lemma_whole(0x30, n);
    lemma_whole(0x01, seq![0xffu8]);
    lemma_tlv(0x01, seq![0xffu8], n);
    lemma_whole(0x02, seq![limit]);
    reveal_with_fuel(be_nat, 2);
    assert(seq![limit].drop_last() =~= Seq::empty());
}

/// The uses of a key, from the bits of an extension, the first of which is the most
/// significant of its first byte: signing what is said, and signing certificates.
pub proof fn law_key_usage_is_read(unused: u8, b: u8)
    requires
        unused <= 7,
        key_usage(tlv(0x03, seq![unused, b])) is Ok,
    ensures
        ({
            let u = key_usage(tlv(0x03, seq![unused, b]))->Ok_0;
            &&& u & 1 == 1 <==> b >= 128
            &&& u & 32 == 32 <==> b / 4 % 2 == 1
        }),
{
    lemma_whole(0x03, seq![unused, b]);
    let u = key_usage(tlv(0x03, seq![unused, b]))->Ok_0;
    assert(seq![unused, b].skip(1)[0] == b);
    assert(u == crate::identity::cert::ext::reversed(b));
    assert((u & 1 == 1 <==> b >= 128) && (u & 32 == 32 <==> b / 4 % 2 == 1)) by (bit_vector)
        requires
            u == (b / 128 + b / 64 % 2 * 2 + b / 32 % 2 * 4 + b / 16 % 2 * 8 + b / 8 % 2 * 16 + b / 4 % 2 * 32 + b / 2
                % 2 * 64 + b % 2 * 128) as u16,
    ;
}

/// Object identifiers one behind the other.
pub open spec fn oids_bytes(l: Seq<Seq<u8>>) -> Seq<u8>
    decreases l.len(),
{
    if l.len() == 0 {
        Seq::empty()
    } else {
        tlv(0x06, l[0]) + oids_bytes(l.skip(1))
    }
}

#[verifier::opaque]
spec fn oid_holds(s: Seq<u8>) -> bool {
    is_oid(s)
}

proof fn lemma_oid(c: Seq<u8>, rest: Seq<u8>)
    requires
        oid_holds(c),
        c.len() <= usize::MAX,
    ensures
        der_oid(tlv(0x06, c) + rest) == Ok::<Seq<u8>, DerError>(c),
        after_tlv(tlv(0x06, c) + rest) == rest,
        (tlv(0x06, c) + rest).len() > c.len() + rest.len(),
{
    reveal(oid_holds);
    lemma_tlv(0x06, c, rest);
}

proof fn lemma_oids(l: Seq<Seq<u8>>, n: nat)
    requires
        n + l.len() <= 64,
        n + l.len() > 0,
        forall|i: int| 0 <= i < l.len() ==> oid_holds(#[trigger] l[i]),
        oids_bytes(l).len() <= usize::MAX,
    ensures
        usages(oids_bytes(l), n) == Ok::<Seq<Seq<u8>>, Error>(l),
    decreases l.len(),
{
    if l.len() == 0 {
        assert(l =~= Seq::empty());
    } else {
        let tail = l.skip(1);
        let rest = oids_bytes(tail);
        assert(oid_holds(l[0]));
        assert(tlv(0x06, l[0]).len() > l[0].len());
        lemma_oid(l[0], rest);
        assert forall|i: int| 0 <= i < tail.len() implies oid_holds(#[trigger] tail[i]) by {
            assert(tail[i] == l[i + 1]);
        }
        lemma_oids(tail, n + 1);
        assert(seq![l[0]] + tail =~= l);
    }
}

/// The purposes of a key are the ones that an extension lists, in its order.
pub proof fn law_purposes_are_read(l: Seq<Seq<u8>>)
    requires
        0 < l.len() <= 64,
        forall|i: int| 0 <= i < l.len() ==> is_oid(#[trigger] l[i]),
        oids_bytes(l).len() <= usize::MAX,
    ensures
        extended_key_usage(tlv(0x30, oids_bytes(l))) == Ok::<Seq<Seq<u8>>, Error>(l),
{
    assert forall|i: int| 0 <= i < l.len() implies oid_holds(#[trigger] l[i]) by {
        reveal(oid_holds);
    }
    lemma_whole(0x30, oids_bytes(l));
    lemma_oids(l, 0);
}

/// A name of a subject, or a base of a subtree, with its tag.
pub open spec fn name_bytes(n: GeneralNameView) -> Seq<u8> {
    match n {
        GeneralNameView::Dns(d) => tlv(0x82, d),
        GeneralNameView::Ip(a) => tlv(0x87, a),
        GeneralNameView::Other(tag, v) => tlv(tag, v),
    }
}

/// Whether a name is one that a certificate may carry: a host name in ASCII, an address
/// of four or sixteen bytes, or a name of another form.
pub open spec fn nameable(n: GeneralNameView) -> bool {
    match n {
        GeneralNameView::Dns(d) => d.len() > 0 && forall|i: int| 0 <= i < d.len() ==> 0 < #[trigger] d[i] < 128,
        GeneralNameView::Ip(a) => a.len() == 4 || a.len() == 16,
        GeneralNameView::Other(tag, v) => {
            ||| tag == 0xa0 || tag == 0xa3 || tag == 0xa4 || tag == 0xa5 || tag == 0x88
            ||| (tag == 0x81 || tag == 0x86) && forall|i: int| 0 <= i < v.len() ==> 0 < #[trigger] v[i] < 128
        },
    }
}

/// Names one behind the other.
pub open spec fn names_bytes(l: Seq<GeneralNameView>) -> Seq<u8>
    decreases l.len(),
{
    if l.len() == 0 {
        Seq::empty()
    } else {
        name_bytes(l[0]) + names_bytes(l.skip(1))
    }
}

proof fn lemma_name(n: GeneralNameView, rest: Seq<u8>)
    requires
        n matches GeneralNameView::Other(tag, _) ==> tag == 0xa0 || tag == 0xa3 || tag == 0xa4 || tag == 0xa5 || tag
            == 0x88 || tag == 0x81 || tag == 0x86,
        name_bytes(n).len() <= usize::MAX,
    ensures
        general_name_at(name_bytes(n) + rest) == Ok::<GeneralNameView, Error>(n),
        after_tlv(name_bytes(n) + rest) == rest,
        (name_bytes(n) + rest).len() > 0,
{
    match n {
        GeneralNameView::Dns(d) => {
            assert(tlv(0x82, d).len() > d.len());
            lemma_tlv(0x82, d, rest);
        },
        GeneralNameView::Ip(a) => {
            assert(tlv(0x87, a).len() > a.len());
            lemma_tlv(0x87, a, rest);
        },
        GeneralNameView::Other(tag, v) => {
            assert(tlv(tag, v).len() > v.len());
            lemma_tlv(tag, v, rest);
        },
    }
}

proof fn lemma_names(l: Seq<GeneralNameView>, n: nat)
    requires
        n + l.len() <= 64,
        n + l.len() > 0,
        forall|i: int| 0 <= i < l.len() ==> nameable(#[trigger] l[i]),
        names_bytes(l).len() <= usize::MAX,
    ensures
        names(names_bytes(l), n) == Ok::<Seq<GeneralNameView>, Error>(l),
    decreases l.len(),
{
    if l.len() == 0 {
        assert(l =~= Seq::empty());
    } else {
        let tail = l.skip(1);
        assert(nameable(l[0]));
        lemma_name(l[0], names_bytes(tail));
        assert forall|i: int| 0 <= i < tail.len() implies nameable(#[trigger] tail[i]) by {
            assert(tail[i] == l[i + 1]);
        }
        lemma_names(tail, n + 1);
        assert(seq![l[0]] + tail =~= l);
    }
}

/// The names of a subject are the ones that an extension lists, in its order.
pub proof fn law_names_are_read(l: Seq<GeneralNameView>)
    requires
        0 < l.len() <= 64,
        forall|i: int| 0 <= i < l.len() ==> nameable(#[trigger] l[i]),
        names_bytes(l).len() <= usize::MAX,
    ensures
        general_names(tlv(0x30, names_bytes(l))) == Ok::<Seq<GeneralNameView>, Error>(l),
{
    lemma_whole(0x30, names_bytes(l));
    lemma_names(l, 0);
}

/// Subtrees one behind the other.
pub open spec fn subtrees_bytes(l: Seq<GeneralNameView>) -> Seq<u8>
    decreases l.len(),
{
    if l.len() == 0 {
        Seq::empty()
    } else {
        tlv(0x30, name_bytes(l[0])) + subtrees_bytes(l.skip(1))
    }
}

/// Whether a name can be the base of a subtree.
pub open spec fn base_of_subtree(n: GeneralNameView) -> bool {
    &&& valid_name(n, true)
    &&& n matches GeneralNameView::Other(tag, _) ==> tag == 0xa0 || tag == 0xa3 || tag == 0xa4 || tag == 0xa5 || tag
        == 0x88 || tag == 0x81 || tag == 0x86
}

proof fn lemma_subtrees(l: Seq<GeneralNameView>, n: nat)
    requires
        n + l.len() <= 64,
        n + l.len() > 0,
        forall|i: int| 0 <= i < l.len() ==> base_of_subtree(#[trigger] l[i]),
        subtrees_bytes(l).len() <= usize::MAX,
    ensures
        subtrees(subtrees_bytes(l), n) == Ok::<Seq<GeneralNameView>, Error>(l),
    decreases l.len(),
{
    if l.len() == 0 {
        assert(l =~= Seq::empty());
    } else {
        let tail = l.skip(1);
        assert(base_of_subtree(l[0]));
        assert(tlv(0x30, name_bytes(l[0])).len() > name_bytes(l[0]).len());
        lemma_tlv(0x30, name_bytes(l[0]), subtrees_bytes(tail));
        lemma_name(l[0], Seq::empty());
        assert(name_bytes(l[0]) + Seq::<u8>::empty() =~= name_bytes(l[0]));
        assert forall|i: int| 0 <= i < tail.len() implies base_of_subtree(#[trigger] tail[i]) by {
            assert(tail[i] == l[i + 1]);
        }
        lemma_subtrees(tail, n + 1);
        assert(seq![l[0]] + tail =~= l);
    }
}

/// The constraints on names below an authority: what the first list holds is permitted
/// and what the second holds is excluded.
pub proof fn law_constraints_are_read(permitted: Seq<GeneralNameView>, excluded: Seq<GeneralNameView>)
    requires
        0 < permitted.len() <= 64,
        0 < excluded.len() <= 64,
        forall|i: int| 0 <= i < permitted.len() ==> base_of_subtree(#[trigger] permitted[i]),
        forall|i: int| 0 <= i < excluded.len() ==> base_of_subtree(#[trigger] excluded[i]),
        (tlv(0xa0, subtrees_bytes(permitted)) + tlv(0xa1, subtrees_bytes(excluded))).len() <= usize::MAX,
    ensures
        name_constraints(tlv(0x30, tlv(0xa0, subtrees_bytes(permitted)) + tlv(0xa1, subtrees_bytes(excluded)))) == Ok::<
            (Option<Seq<GeneralNameView>>, Option<Seq<GeneralNameView>>),
            Error,
        >((Some(permitted), Some(excluded))),
        name_constraints(tlv(0x30, tlv(0xa0, subtrees_bytes(permitted)))) == Ok::<
            (Option<Seq<GeneralNameView>>, Option<Seq<GeneralNameView>>),
            Error,
        >((Some(permitted), None)),
        name_constraints(tlv(0x30, tlv(0xa1, subtrees_bytes(excluded)))) == Ok::<
            (Option<Seq<GeneralNameView>>, Option<Seq<GeneralNameView>>),
            Error,
        >((None, Some(excluded))),
{
    let a = subtrees_bytes(permitted);
    let b = subtrees_bytes(excluded);
    assert(tlv(0xa0, a).len() > a.len());
    assert(tlv(0xa1, b).len() > b.len());
    lemma_subtrees(permitted, 0);
    lemma_subtrees(excluded, 0);
    lemma_whole(0x30, tlv(0xa0, a) + tlv(0xa1, b));
    lemma_whole(0x30, tlv(0xa0, a));
    lemma_whole(0x30, tlv(0xa1, b));
    lemma_tlv(0xa0, a, tlv(0xa1, b));
    lemma_whole(0xa0, a);
    lemma_whole(0xa1, b);
}

/// An algorithm identifier: its object identifier and its parameters.
pub open spec fn identifier_bytes(id: IdentifierView) -> Seq<u8> {
    tlv(0x30, tlv(0x06, id.oid) + id.parameters)
}

/// Whether an algorithm identifier has at most one value as its parameters.
#[verifier::opaque]
pub open spec fn identifies(id: IdentifierView) -> bool {
    &&& is_oid(id.oid)
    &&& id.parameters.len() == 0 || der_tlv(id.parameters) is Ok && after_tlv(id.parameters).len() == 0
}

#[verifier::rlimit(60)]
proof fn lemma_identifier(id: IdentifierView, rest: Seq<u8>)
    requires
        identifies(id),
        identifier_bytes(id).len() <= usize::MAX,
    ensures
        algorithm_identifier(identifier_bytes(id) + rest) == Ok::<IdentifierView, Error>(id),
        after_tlv(identifier_bytes(id) + rest) == rest,
{
    reveal(identifies);
    let c = tlv(0x06, id.oid) + id.parameters;
    assert(tlv(0x30, c).len() > c.len());
    assert(tlv(0x06, id.oid).len() > id.oid.len());
    lemma_tlv(0x30, c, rest);
    lemma_tlv(0x06, id.oid, id.parameters);
}

/// A public key with its algorithm.
pub open spec fn key_bytes(id: IdentifierView, key: Seq<u8>) -> Seq<u8> {
    tlv(0x30, identifier_bytes(id) + tlv(0x03, seq![0u8] + key))
}

#[verifier::rlimit(60)]
proof fn lemma_octets(octets: Seq<u8>)
    requires
        octets.len() < usize::MAX,
    ensures
        der_octets(tlv(0x03, seq![0u8] + octets)) == Ok::<Seq<u8>, DerError>(octets),
        after_tlv(tlv(0x03, seq![0u8] + octets)).len() == 0,
{
    let c = seq![0u8] + octets;
    lemma_whole(0x03, c);
    assert(c.skip(1) =~= octets);
    assert(c.last() % 1 == 0);
}

/// The key that an identifier and bytes make.
pub open spec fn key_of(id: IdentifierView, key: Seq<u8>) -> SpkiView {
    SpkiView { algorithm: public_key_algorithm(id)->Ok_0, key, der: key_bytes(id, key) }
}

#[verifier::rlimit(60)]
proof fn lemma_key_contents(id: IdentifierView, key: Seq<u8>)
    requires
        identifies(id),
        public_key_algorithm(id) is Ok,
        key_bytes(id, key).len() <= usize::MAX,
    ensures
        spki_contents(identifier_bytes(id) + tlv(0x03, seq![0u8] + key), key_bytes(id, key)) == Ok::<SpkiView, Error>(
            key_of(id, key),
        ),
{
    let bits = tlv(0x03, seq![0u8] + key);
    let c = identifier_bytes(id) + bits;
    assert(tlv(0x30, c).len() > c.len());
    assert(bits.len() > (seq![0u8] + key).len());
    lemma_identifier(id, bits);
    lemma_octets(key);
}

proof fn lemma_key_framed(id: IdentifierView, key: Seq<u8>, rest: Seq<u8>)
    requires
        key_bytes(id, key).len() <= usize::MAX,
    ensures
        ({
            let c = identifier_bytes(id) + tlv(0x03, seq![0u8] + key);
            &&& der_tagged(key_bytes(id, key) + rest, 0x30) == Ok::<Seq<u8>, DerError>(c)
            &&& der_whole(key_bytes(id, key), 0x30) == Ok::<Seq<u8>, DerError>(c)
            &&& after_tlv(key_bytes(id, key) + rest) == rest
            &&& whole_tlv(key_bytes(id, key) + rest) == key_bytes(id, key)
        }),
{
    let c = identifier_bytes(id) + tlv(0x03, seq![0u8] + key);
    assert(tlv(0x30, c).len() > c.len());
    lemma_tlv(0x30, c, rest);
    lemma_whole(0x30, c);
    assert(whole_tlv(key_bytes(id, key) + rest) =~= key_bytes(id, key));
}

/// A key is read with its algorithm, whatever follows it.
#[verifier::rlimit(60)]
pub proof fn law_key_is_read(id: IdentifierView, key: Seq<u8>, rest: Seq<u8>)
    requires
        identifies(id),
        public_key_algorithm(id) is Ok,
        key_bytes(id, key).len() <= usize::MAX,
    ensures
        spki_at(key_bytes(id, key) + rest) == Ok::<SpkiView, Error>(key_of(id, key)),
        after_tlv(key_bytes(id, key) + rest) == rest,
        spki_whole(key_bytes(id, key)) == Ok::<SpkiView, Error>(key_of(id, key)),
{
    lemma_key_framed(id, key, rest);
    lemma_key_contents(id, key);
    assert(spki_at(key_bytes(id, key) + rest) == spki_contents(
        identifier_bytes(id) + tlv(0x03, seq![0u8] + key),
        key_bytes(id, key),
    )) by {
        reveal(spki_at);
    }
    assert(spki_whole(key_bytes(id, key)) == spki_contents(
        identifier_bytes(id) + tlv(0x03, seq![0u8] + key),
        key_bytes(id, key),
    )) by {
        reveal(spki_whole);
    }
}

/// What a certificate of the third version is made of.
pub struct CertParts {
    pub serial: Seq<u8>,
    pub algorithm: IdentifierView,
    pub issuer: Seq<u8>,
    pub not_before: (u8, Seq<u8>),
    pub not_after: (u8, Seq<u8>),
    pub subject: Seq<u8>,
    pub key_algorithm: IdentifierView,
    pub key: Seq<u8>,
    pub extensions: Option<Seq<u8>>,
}

/// The end of what is signed in a certificate: its extensions, where it has any.
pub open spec fn extensions_bytes(p: CertParts) -> Seq<u8> {
    match p.extensions {
        Some(x) => tlv(0xa3, tlv(0x30, x)),
        None => Seq::empty(),
    }
}

/// What is signed in a certificate from its subject on.
pub open spec fn subject_bytes(p: CertParts) -> Seq<u8> {
    tlv(0x30, p.subject) + (key_bytes(p.key_algorithm, p.key) + extensions_bytes(p))
}

/// The times between which a certificate is in force.
pub open spec fn validity_bytes(p: CertParts) -> Seq<u8> {
    tlv(p.not_before.0, p.not_before.1) + tlv(p.not_after.0, p.not_after.1)
}

/// What is signed in a certificate: version, serial number, algorithm, issuer, validity,
/// subject, key and extensions.
pub open spec fn signed_bytes(p: CertParts) -> Seq<u8> {
    tlv(0xa0, tlv(0x02, seq![2u8])) + (tlv(0x02, p.serial) + (identifier_bytes(p.algorithm) + (tlv(0x30, p.issuer) + (
    tlv(0x30, validity_bytes(p)) + subject_bytes(p)))))
}

/// A certificate: what is signed, the algorithm again, and the signature.
pub open spec fn certificate_bytes(p: CertParts, algorithm: IdentifierView, signature: Seq<u8>) -> Seq<u8> {
    tlv(0x30, tlv(0x30, signed_bytes(p)) + (identifier_bytes(algorithm) + tlv(0x03, seq![0u8] + signature)))
}

/// Whether each of the parts of a certificate is in order by itself.
#[verifier::opaque]
pub open spec fn in_order(p: CertParts) -> bool {
    &&& is_uint(p.serial)
    &&& p.serial.len() <= 20
    &&& p.serial != seq![0u8]
    &&& identifies(p.algorithm)
    &&& signature_algorithm(p.algorithm) is Ok
    &&& name_key(p.issuer) is Ok
    &&& x509_time(p.not_before.0, p.not_before.1) is Some
    &&& x509_time(p.not_after.0, p.not_after.1) is Some
    &&& x509_time(p.not_before.0, p.not_before.1)->0 <= x509_time(p.not_after.0, p.not_after.1)->0
    &&& rdns(p.subject, false) is Ok
    &&& identifies(p.key_algorithm)
    &&& public_key_algorithm(p.key_algorithm) is Ok
}

/// What the parts of a certificate say.
#[verifier::opaque]
pub open spec fn said(p: CertParts) -> TbsView {
    TbsView {
        version: 3,
        serial: p.serial,
        signature_alg: signature_algorithm(p.algorithm)->Ok_0,
        issuer: p.issuer,
        issuer_key: name_key(p.issuer)->Ok_0,
        subject: p.subject,
        validity: Validity {
            not_before: UnixTime(x509_time(p.not_before.0, p.not_before.1)->0 as i64),
            not_after: UnixTime(x509_time(p.not_after.0, p.not_after.1)->0 as i64),
        },
        spki: SpkiView {
            algorithm: public_key_algorithm(p.key_algorithm)->Ok_0,
            key: p.key,
            der: key_bytes(p.key_algorithm, p.key),
        },
        extensions: p.extensions,
    }
}

proof fn lemma_said(p: CertParts)
    ensures
        said(p).version == 3,
        said(p).serial == p.serial,
        said(p).issuer == p.issuer,
        said(p).subject == p.subject,
        said(p).extensions == p.extensions,
{
    reveal(said);
}

proof fn lemma_validity(p: CertParts, rest: Seq<u8>)
    requires
        in_order(p),
        tlv(0x30, validity_bytes(p)).len() <= usize::MAX,
    ensures
        tbs_validity(tlv(0x30, validity_bytes(p)) + rest) == Ok::<Validity, Error>(said(p).validity),
        after_tlv(tlv(0x30, validity_bytes(p)) + rest) == rest,
{
    reveal(in_order);
    reveal(said);
    reveal(tbs_validity);
    reveal(validity);
    let a = tlv(p.not_before.0, p.not_before.1);
    let b = tlv(p.not_after.0, p.not_after.1);
    assert(a.len() > p.not_before.1.len() && b.len() > p.not_after.1.len());
    assert(tlv(0x30, a + b).len() > (a + b).len());
    lemma_tlv(0x30, a + b, rest);
    lemma_tlv(p.not_before.0, p.not_before.1, b);
    lemma_whole(p.not_after.0, p.not_after.1);
}

proof fn lemma_end(p: CertParts)
    requires
        extensions_bytes(p).len() <= usize::MAX,
    ensures
        tbs_end(extensions_bytes(p), 3) == Ok::<Option<Seq<u8>>, Error>(p.extensions),
{
    reveal(tbs_end);
    reveal(tbs_extensions);
    if p.extensions is Some {
        let x = p.extensions->0;
        assert(tlv(0x30, x).len() > x.len());
        assert(tlv(0xa3, tlv(0x30, x)).len() > tlv(0x30, x).len());
        lemma_whole(0xa3, tlv(0x30, x));
        lemma_whole(0x30, x);
    }
}

proof fn lemma_version(rest: Seq<u8>)
    ensures
        tbs_version(tlv(0xa0, tlv(0x02, seq![2u8])) + rest) == Ok::<u8, Error>(3),
        after_optional(tlv(0xa0, tlv(0x02, seq![2u8])) + rest, 0xa0) == rest,
{
    reveal(tbs_version);
    let v = tlv(0x02, seq![2u8]);
    assert(v.len() == 3);
    lemma_tlv(0xa0, v, rest);
    lemma_whole(0x02, seq![2u8]);
    reveal_with_fuel(be_nat, 2);
    assert(seq![2u8].drop_last() =~= Seq::empty());
}

proof fn lemma_serial(p: CertParts, rest: Seq<u8>)
    requires
        in_order(p),
    ensures
        tbs_serial(tlv(0x02, p.serial) + rest) == Ok::<Seq<u8>, Error>(p.serial),
        after_tlv(tlv(0x02, p.serial) + rest) == rest,
{
    reveal(in_order);
    reveal(tbs_serial);
    lemma_tlv(0x02, p.serial, rest);
}

proof fn lemma_issuer(p: CertParts, rest: Seq<u8>)
    requires
        in_order(p),
        p.issuer.len() <= usize::MAX,
    ensures
        tbs_issuer(tlv(0x30, p.issuer) + rest) == Ok::<(Seq<u8>, Seq<u8>), Error>((p.issuer, said(p).issuer_key)),
        after_tlv(tlv(0x30, p.issuer) + rest) == rest,
{
    reveal(in_order);
    reveal(said);
    reveal(tbs_issuer);
    lemma_tlv(0x30, p.issuer, rest);
}

proof fn lemma_subject(p: CertParts, rest: Seq<u8>)
    requires
        in_order(p),
        p.subject.len() <= usize::MAX,
    ensures
        tbs_subject(tlv(0x30, p.subject) + rest) == Ok::<Seq<u8>, Error>(p.subject),
        after_tlv(tlv(0x30, p.subject) + rest) == rest,
{
    reveal(in_order);
    reveal(tbs_subject);
    lemma_tlv(0x30, p.subject, rest);
}

proof fn lemma_algorithm(p: CertParts, rest: Seq<u8>)
    requires
        in_order(p),
        identifier_bytes(p.algorithm).len() <= usize::MAX,
    ensures
        tbs_algorithm(identifier_bytes(p.algorithm) + rest) == Ok::<(Signature, IdentifierView), Error>(
            (said(p).signature_alg, p.algorithm),
        ),
        after_tlv(identifier_bytes(p.algorithm) + rest) == rest,
{
    reveal(in_order);
    reveal(said);
    reveal(tbs_algorithm);
    lemma_identifier(p.algorithm, rest);
}

#[verifier::rlimit(60)]
proof fn lemma_key(p: CertParts, rest: Seq<u8>)
    requires
        in_order(p),
        key_bytes(p.key_algorithm, p.key).len() <= usize::MAX,
    ensures
        spki_at(key_bytes(p.key_algorithm, p.key) + rest) == Ok::<SpkiView, Error>(said(p).spki),
        after_tlv(key_bytes(p.key_algorithm, p.key) + rest) == rest,
{
    reveal(in_order);
    reveal(said);
    law_key_is_read(p.key_algorithm, p.key, rest);
}

#[verifier::rlimit(60)]
proof fn lemma_signed(p: CertParts)
    requires
        in_order(p),
        signed_bytes(p).len() <= usize::MAX,
    ensures
        tbs_fields(signed_bytes(p)) == Ok::<(TbsView, IdentifierView), Error>((said(p), p.algorithm)),
{
    reveal(tbs_fields);
    let s7 = extensions_bytes(p);
    let s6 = key_bytes(p.key_algorithm, p.key) + s7;
    let s5 = tlv(0x30, p.subject) + s6;
    let s4 = tlv(0x30, validity_bytes(p)) + s5;
    let s3 = tlv(0x30, p.issuer) + s4;
    let s2 = identifier_bytes(p.algorithm) + s3;
    let s1 = tlv(0x02, p.serial) + s2;
    assert(signed_bytes(p) == tlv(0xa0, tlv(0x02, seq![2u8])) + s1);
    assert(tlv(0x30, p.subject).len() > p.subject.len());
    assert(tlv(0x30, p.issuer).len() > p.issuer.len());
    lemma_said(p);
    lemma_version(s1);
    lemma_serial(p, s2);
    lemma_algorithm(p, s3);
    lemma_issuer(p, s4);
    lemma_validity(p, s5);
    lemma_subject(p, s6);
    lemma_key(p, s7);
    lemma_end(p);
}

/// A certificate is read for what its parts say: each name, time and key is the one that
/// stands in its place, and what is signed is all of it between the outer tag and the
/// second naming of the algorithm. One that names two algorithms is refused.
#[verifier::rlimit(60)]
pub proof fn law_certificate_is_read(p: CertParts, algorithm: IdentifierView, signature: Seq<u8>)
    requires
        in_order(p),
        identifies(algorithm),
        certificate_bytes(p, algorithm, signature).len() <= usize::MAX,
    ensures
        certificate(certificate_bytes(p, algorithm, signature)) == if algorithm == p.algorithm {
            Ok::<CertView, Error>(CertView { tbs_der: tlv(0x30, signed_bytes(p)), tbs: said(p), signature })
        } else {
            Err(Error::BadAlgorithm)
        },
{
    reveal(certificate);
    let bits = tlv(0x03, seq![0u8] + signature);
    let tail = identifier_bytes(algorithm) + bits;
    let inner = tlv(0x30, signed_bytes(p));
    let top = inner + tail;
    assert(tlv(0x30, top).len() > top.len());
    assert(inner.len() > signed_bytes(p).len());
    assert(bits.len() > (seq![0u8] + signature).len());
    lemma_whole(0x30, top);
    lemma_tlv(0x30, signed_bytes(p), tail);
    lemma_signed(p);
    lemma_identifier(algorithm, bits);
    lemma_octets(signature);
    assert(whole_tlv(top) =~= inner);
}

} // verus!
