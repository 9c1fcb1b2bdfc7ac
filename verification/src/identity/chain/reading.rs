//! What a certificate says of its subject, from the list of its extensions.

use vstd::prelude::*;

use crate::identity::cert::ext::scope::{general_names, name_constraints, GeneralNameView};
use crate::identity::cert::ext::{
    after_extension, all_extensions, basic_constraints, extended_key_usage, extensions_of, key_usage,
    law_extensions_distinct, lemma_extension_consumes, next_extension, ExtensionView, ExtensionsView,
    OID_BASIC_CONSTRAINTS, OID_EKU_ANY, OID_EKU_SERVER_AUTH, OID_EXTENDED_KEY_USAGE, OID_KEY_USAGE,
    OID_NAME_CONSTRAINTS, OID_SUBJECT_ALT_NAME,
};
use crate::identity::chain::extensions::{
    no_extensions, profile, with_extension, with_extensions, ProfileView,
};

verus! {

/// The type of the extension on the uses of a key.
pub open spec fn usage_oid() -> Seq<u8> {
    seq![0x55u8, 0x1d, 15]
}

/// The type of the extension with the names of a subject.
pub open spec fn names_oid() -> Seq<u8> {
    seq![0x55u8, 0x1d, 17]
}

/// The type of the extension on authorities.
pub open spec fn basic_oid() -> Seq<u8> {
    seq![0x55u8, 0x1d, 19]
}

/// The type of the extension on the names below an authority.
pub open spec fn constraints_oid() -> Seq<u8> {
    seq![0x55u8, 0x1d, 30]
}

/// The type of the extension on the purposes of a key.
pub open spec fn purposes_oid() -> Seq<u8> {
    seq![0x55u8, 0x1d, 37]
}

/// The purpose of a server.
pub open spec fn server_oid() -> Seq<u8> {
    seq![0x2bu8, 6, 1, 5, 5, 7, 3, 1]
}

/// Any purpose.
pub open spec fn any_oid() -> Seq<u8> {
    seq![0x55u8, 0x1d, 37, 0]
}

proof fn lemma_oids()
    ensures
        OID_KEY_USAGE@ == usage_oid(),
        OID_SUBJECT_ALT_NAME@ == names_oid(),
        OID_BASIC_CONSTRAINTS@ == basic_oid(),
        OID_NAME_CONSTRAINTS@ == constraints_oid(),
        OID_EXTENDED_KEY_USAGE@ == purposes_oid(),
        OID_EKU_SERVER_AUTH@ == server_oid(),
        OID_EKU_ANY@ == any_oid(),
        usage_oid() != names_oid(),
        usage_oid() != basic_oid(),
        usage_oid() != constraints_oid(),
        usage_oid() != purposes_oid(),
        names_oid() != basic_oid(),
        names_oid() != constraints_oid(),
        names_oid() != purposes_oid(),
        basic_oid() != constraints_oid(),
        basic_oid() != purposes_oid(),
        constraints_oid() != purposes_oid(),
{
    assert(OID_KEY_USAGE@ =~= usage_oid());
    assert(OID_SUBJECT_ALT_NAME@ =~= names_oid());
    assert(OID_BASIC_CONSTRAINTS@ =~= basic_oid());
    assert(OID_NAME_CONSTRAINTS@ =~= constraints_oid());
    assert(OID_EXTENDED_KEY_USAGE@ =~= purposes_oid());
    assert(OID_EKU_SERVER_AUTH@ =~= server_oid());
    assert(OID_EKU_ANY@ =~= any_oid());
    assert(usage_oid()[2] == 15 && names_oid()[2] == 17 && basic_oid()[2] == 19 && constraints_oid()[2] == 30
        && purposes_oid()[2] == 37);
}

/// Whether an extension can be gone by: it is one of the five that are known and has a
/// value of its kind, or it is another and is not critical.
pub open spec fn readable(x: ExtensionView) -> bool {
    if x.oid == usage_oid() {
        key_usage(x.value) is Ok
    } else if x.oid == names_oid() {
        general_names(x.value) is Ok
    } else if x.oid == basic_oid() {
        basic_constraints(x.value) is Ok
    } else if x.oid == constraints_oid() {
        name_constraints(x.value) is Ok
    } else if x.oid == purposes_oid() {
        extended_key_usage(x.value) is Ok
    } else {
        !x.critical
    }
}

/// Whether what is said agrees with an extension.
pub open spec fn agrees(p: ProfileView, x: ExtensionView) -> bool {
    &&& x.oid == usage_oid() ==> p.usage == Some(key_usage(x.value)->Ok_0)
    &&& x.oid == names_oid() ==> p.names == general_names(x.value)->Ok_0
    &&& x.oid == basic_oid() ==> p.basic == Some(basic_constraints(x.value)->Ok_0)
    &&& x.oid == constraints_oid() ==> {
        let c = name_constraints(x.value)->Ok_0;
        &&& p.constraints is Some
        &&& (p.constraints->0).permitted == match c.0 {
            Some(l) => l,
            None => Seq::<GeneralNameView>::empty(),
        }
        &&& (p.constraints->0).excluded == match c.1 {
            Some(l) => l,
            None => Seq::<GeneralNameView>::empty(),
        }
    }
    &&& x.oid == purposes_oid() ==> {
        let l = extended_key_usage(x.value)->Ok_0;
        p.purpose == Some((l.contains(server_oid()), l.contains(any_oid())))
    }
}

/// Whether no extension of a list has a type.
pub open spec fn lacks(l: Seq<ExtensionView>, oid: Seq<u8>) -> bool {
    forall|i: int| 0 <= i < l.len() ==> (#[trigger] l[i]).oid != oid
}

/// Whether what is said before a list of extensions is still said after it where the
/// list says nothing.
pub open spec fn else_kept(before: ProfileView, after: ProfileView, l: Seq<ExtensionView>) -> bool {
    &&& lacks(l, usage_oid()) ==> after.usage == before.usage
    &&& lacks(l, names_oid()) ==> after.names == before.names
    &&& lacks(l, basic_oid()) ==> after.basic == before.basic
    &&& lacks(l, constraints_oid()) ==> after.constraints == before.constraints
    &&& lacks(l, purposes_oid()) ==> after.purpose == before.purpose
}

proof fn lemma_one(p: ProfileView, x: ExtensionView)
    ensures
        with_extension(p, x) is Ok <==> readable(x),
        with_extension(p, x) is Ok ==> agrees(with_extension(p, x)->Ok_0, x) && else_kept(
            p,
            with_extension(p, x)->Ok_0,
            seq![x],
        ),
{
    reveal(with_extension);
    lemma_oids();
    assert(seq![x][0] == x);
}

proof fn lemma_kept(x: ExtensionView, p: ProfileView, q: ProfileView, r: ProfileView, tail: Seq<ExtensionView>)
    requires
        agrees(q, x),
        else_kept(p, q, seq![x]),
        else_kept(q, r, tail),
        lacks(tail, x.oid),
    ensures
        agrees(r, x),
        else_kept(p, r, seq![x] + tail),
{
    let l = seq![x] + tail;
    assert(l[0] == x && seq![x][0] == x);
    assert forall|oid: Seq<u8>| #[trigger] lacks(l, oid) implies lacks(tail, oid) && lacks(seq![x], oid) by {
        assert forall|i: int| 0 <= i < tail.len() implies (#[trigger] tail[i]).oid != oid by {
            assert(l[i + 1] == tail[i]);
        }
    }
}

proof fn lemma_list(p: ProfileView, v: ExtensionsView, l: Seq<ExtensionView>)
    requires
        all_extensions(v) == Ok::<Seq<ExtensionView>, crate::identity::cert::Error>(l),
        forall|i: int, j: int| 0 <= i < j < l.len() ==> (#[trigger] l[i]).oid != (#[trigger] l[j]).oid,
    ensures
        with_extensions(p, v) is Ok <==> forall|i: int| 0 <= i < l.len() ==> readable(#[trigger] l[i]),
        with_extensions(p, v) is Ok ==> {
            &&& forall|i: int| 0 <= i < l.len() ==> agrees(with_extensions(p, v)->Ok_0, #[trigger] l[i])
            &&& else_kept(p, with_extensions(p, v)->Ok_0, l)
        },
    decreases v.rest.len(),
{
    match next_extension(v) {
        None => {
            assert(l.len() == 0);
        },
        Some(Err(_)) => {},
        Some(Ok(x)) => {
            lemma_extension_consumes(v.rest);
            lemma_one(p, x);
            let w = after_extension(v);
            assert(all_extensions(w) is Ok);
            let tail = all_extensions(w)->Ok_0;
            assert(l == seq![x] + tail);
            assert(l[0] == x);
            assert forall|i: int| 0 <= i < tail.len() implies #[trigger] tail[i] == l[i + 1] by {}
            if readable(x) {
                let q = with_extension(p, x)->Ok_0;
                assert forall|i: int, j: int| 0 <= i < j < tail.len() implies (#[trigger] tail[i]).oid != (
                #[trigger] tail[j]).oid by {
                    assert(l[i + 1].oid != l[j + 1].oid);
                }
                lemma_list(q, w, tail);
                assert(with_extensions(p, v) == with_extensions(q, w));
                assert(lacks(tail, x.oid)) by {
                    assert forall|i: int| 0 <= i < tail.len() implies (#[trigger] tail[i]).oid != x.oid by {
                        assert(l[0].oid != l[i + 1].oid);
                    }
                }
                if with_extensions(q, w) is Ok {
                    let r = with_extensions(q, w)->Ok_0;
                    lemma_kept(x, p, q, r, tail);
                    assert forall|i: int| 0 <= i < l.len() implies agrees(r, #[trigger] l[i]) by {
                        if i > 0 {
                            assert(tail[i - 1] == l[i]);
                        }
                    }
                    assert forall|i: int| 0 <= i < l.len() implies readable(#[trigger] l[i]) by {
                        if i > 0 {
                            assert(tail[i - 1] == l[i]);
                        }
                    }
                }
            }
        },
    }
}

/// What a certificate says of its subject is what its extensions say. It can be gone by
/// exactly where each of them can; each that is known is taken at its word, and of what
/// none speaks nothing is said.
pub proof fn law_extensions_say(der: Seq<u8>, l: Seq<ExtensionView>)
    requires
        all_extensions(extensions_of(der)) == Ok::<Seq<ExtensionView>, crate::identity::cert::Error>(l),
    ensures
        profile(der) is Ok <==> forall|i: int| 0 <= i < l.len() ==> readable(#[trigger] l[i]),
        profile(der) matches Ok(p) ==> {
            &&& forall|i: int| 0 <= i < l.len() ==> agrees(p, #[trigger] l[i])
            &&& lacks(l, usage_oid()) ==> p.usage is None
            &&& lacks(l, names_oid()) ==> p.names.len() == 0
            &&& lacks(l, basic_oid()) ==> p.basic is None
            &&& lacks(l, constraints_oid()) ==> p.constraints is None
            &&& lacks(l, purposes_oid()) ==> p.purpose is None
        },
{
    law_extensions_distinct(der);
    lemma_list(no_extensions(), extensions_of(der), l);
}

} // verus!
