//! Handshake extensions: a type and an opaque body.

use vstd::prelude::*;

use crate::codec::{
    be16, get_all, get_u16, get_vec16, lemma_be16, lemma_get_all_ends, lemma_get_all_step,
    lemma_get_put_all, lemma_put_all_push, lemma_vec_round_trip, put_all, put_u16, put_vec_u16, to_vec,
    vec16, DecodeError, Reader,
};

verus! {

/// The code points that say what an extension is.
pub struct ExtensionType;

impl ExtensionType {
    pub const SERVER_NAME: u16 = 0;

    pub const SUPPORTED_GROUPS: u16 = 10;

    pub const SIGNATURE_ALGORITHMS: u16 = 13;

    pub const APPLICATION_LAYER_PROTOCOL_NEGOTIATION: u16 = 16;

    pub const CLIENT_CERTIFICATE_TYPE: u16 = 19;

    pub const SERVER_CERTIFICATE_TYPE: u16 = 20;

    pub const PRE_SHARED_KEY: u16 = 41;

    pub const EARLY_DATA: u16 = 42;

    pub const SUPPORTED_VERSIONS: u16 = 43;

    pub const PSK_KEY_EXCHANGE_MODES: u16 = 45;

    pub const KEY_SHARE: u16 = 51;

    pub const QUIC_TRANSPORT_PARAMETERS: u16 = 57;
}

/// One extension of a handshake message.
#[derive(Debug, Clone, PartialEq, Eq)]
pub struct Extension {
    pub ty: u16,
    pub data: Vec<u8>,
}

/// An extension's code point and body.
pub type ExtensionView = (u16, Seq<u8>);

impl View for Extension {
    type V = ExtensionView;

    open spec fn view(&self) -> ExtensionView {
        (self.ty, self.data@)
    }
}

/// The code points and bodies of a list of extensions.
pub open spec fn extensions_view(l: Seq<Extension>) -> Seq<ExtensionView> {
    l.map_values(|e: Extension| e@)
}

/// The wire form of one extension.
pub open spec fn extension_bytes(e: ExtensionView) -> Seq<u8> {
    be16(e.0) + vec16(e.1)
}

/// The extension at the front of `s`, and what follows it.
pub open spec fn get_extension(s: Seq<u8>) -> Option<(ExtensionView, Seq<u8>)> {
    match get_u16(s) {
        Some((ty, s1)) => match get_vec16(s1) {
            Some((data, rest)) => Some(((ty, data), rest)),
            None => None,
        },
        None => None,
    }
}

pub open spec fn extension_item() -> spec_fn(Seq<u8>) -> Option<(ExtensionView, Seq<u8>)> {
    |s: Seq<u8>| get_extension(s)
}

pub open spec fn extension_enc() -> spec_fn(ExtensionView) -> Seq<u8> {
    |e: ExtensionView| extension_bytes(e)
}

/// The wire form of a list of extensions.
pub open spec fn extensions_bytes(l: Seq<ExtensionView>) -> Seq<u8> {
    vec16(put_all(extension_enc(), l))
}

/// The list of extensions at the front of `s`, and what follows it.
pub open spec fn get_extensions(s: Seq<u8>) -> Option<(Seq<ExtensionView>, Seq<u8>)> {
    match get_vec16(s) {
        Some((body, rest)) => match get_all(extension_item(), body) {
            Some(l) => Some((l, rest)),
            None => None,
        },
        None => None,
    }
}

/// Whether each body, and the list as a whole, fits its length prefix.
pub open spec fn extensions_fit(l: Seq<ExtensionView>) -> bool {
    &&& forall|i: int| 0 <= i < l.len() ==> (#[trigger] l[i]).1.len() <= 0xffff
    &&& put_all(extension_enc(), l).len() <= 0xffff
}

/// The body of the first extension of type `ty` in `l`.
pub open spec fn find_extension(l: Seq<ExtensionView>, ty: u16) -> Option<Seq<u8>>
    decreases l.len(),
{
    if l.len() == 0 {
        None
    } else if l[0].0 == ty {
        Some(l[0].1)
    } else {
        find_extension(l.skip(1), ty)
    }
}

/// A list of extensions that fits is read back from its wire form, whatever
/// follows it.
pub proof fn law_extensions_round_trip(l: Seq<ExtensionView>, rest: Seq<u8>)
    requires
        extensions_fit(l),
    ensures
        get_extensions(extensions_bytes(l) + rest) == Some((l, rest)),
{
    let enc = extension_enc();
    let item = extension_item();
    assert forall|i: int, rest: Seq<u8>|
        #![trigger enc(l[i]) + rest]
        0 <= i < l.len() implies enc(l[i]).len() > 0 && item(enc(l[i]) + rest) == Some(
        (l[i], rest),
    ) by {
        let e = l[i];
        lemma_vec_round_trip(e.1, rest);
        lemma_be16(e.0, vec16(e.1) + rest);
        assert(enc(e) + rest =~= be16(e.0) + (vec16(e.1) + rest));
    }
    lemma_get_put_all(item, enc, l);
    lemma_vec_round_trip(put_all(enc, l), rest);
}

/// The first extension of a type is the one `find_extension` names, where
/// exactly the entries before it have other types.
pub proof fn lemma_find_extension(l: Seq<ExtensionView>, ty: u16, i: int)
    requires
        0 <= i <= l.len(),
        forall|j: int| 0 <= j < i ==> (#[trigger] l[j]).0 != ty,
    ensures
        find_extension(l, ty) == find_extension(l.skip(i), ty),
        i < l.len() && l[i].0 == ty ==> find_extension(l, ty) == Some(l[i].1),
        i == l.len() ==> find_extension(l, ty) is None,
    decreases i,
{
    assert(l.skip(0) =~= l);
    if i > 0 {
        let t = l.skip(1);
        assert forall|j: int| 0 <= j < i - 1 implies (#[trigger] t[j]).0 != ty by {
            assert(t[j] == l[j + 1]);
        }
        assert(l[0].0 != ty);
        lemma_find_extension(t, ty, i - 1);
        assert(t.skip(i - 1) =~= l.skip(i));
    }
}

impl Extension {
    /// An extension of type `ty` with body `data`.
    pub fn new(ty: u16, data: Vec<u8>) -> (r: Self)
        ensures
            r@ == (ty, data@),
            r.ty == ty,
            r.data == data,
    {
        Self { ty, data }
    }

    /// Appends the wire form of this extension.
    pub fn encode(&self, out: &mut Vec<u8>)
        requires
            self.data.len() <= 0xffff,
        ensures
            final(out)@ == old(out)@ + extension_bytes(self@),
    {
        put_u16(out, self.ty);
        put_vec_u16(out, self.data.as_slice());
        assert(out@ =~= old(out)@ + extension_bytes(self@));
    }

    /// Appends the wire form of a list of extensions.
    pub fn encode_list(list: &Vec<Extension>, out: &mut Vec<u8>)
        requires
            extensions_fit(extensions_view(list@)),
        ensures
            final(out)@ == old(out)@ + extensions_bytes(extensions_view(list@)),
    {
        let ghost l = extensions_view(list@);
        let mut body: Vec<u8> = Vec::new();
        let mut i: usize = 0;
        assert(l.take(0) =~= Seq::empty());
        while i < list.len()
            invariant
                i <= list.len(),
                l == extensions_view(list@),
                extensions_fit(l),
                body@ == put_all(extension_enc(), l.take(i as int)),
            decreases list.len() - i,
        {
            assert(l[i as int] == list@[i as int]@);
            list[i].encode(&mut body);
            proof {
                lemma_put_all_push(extension_enc(), l.take(i as int), l[i as int]);
                assert(l.take(i as int).push(l[i as int]) =~= l.take(i + 1));
            }
            i = i + 1;
        }
        assert(l.take(i as int) =~= l);
        put_vec_u16(out, body.as_slice());
    }

    /// Reads one extension.
    pub fn decode<'a>(r: &mut Reader<'a>) -> (res: Result<Self, DecodeError>)
        ensures
            match get_extension(old(r)@) {
                Some((e, rest)) => res is Ok && res->Ok_0@ == e && final(r)@ == rest,
                None => res == Err::<Self, DecodeError>(DecodeError::UnexpectedEnd) && final(r)@ == old(
                    r)@,
            },
    {
        let mut p = *r;
        let ty: u16 = p.u16()?;
        let data = p.vec_u16()?;
        *r = p;
        Ok(Self { ty, data: to_vec(data) })
    }

    /// Reads a list of extensions.
    pub fn decode_list<'a>(r: &mut Reader<'a>) -> (res: Result<Vec<Self>, DecodeError>)
        ensures
            match get_extensions(old(r)@) {
                Some((l, rest)) => res is Ok && extensions_view(res->Ok_0@) == l && final(r)@ == rest,
                None => res == Err::<Vec<Self>, DecodeError>(DecodeError::UnexpectedEnd) && final(r)@
                    == old(r)@,
            },
    {
        let mut p = *r;
        let mut sub = p.sub_u16()?;
        let mut out: Vec<Extension> = Vec::new();
        let ghost whole = sub@;
        let ghost item = extension_item();
        proof {
            lemma_get_all_ends(item, whole, Seq::<ExtensionView>::empty());
            assert(extensions_view(out@) =~= Seq::empty());
        }
        while !sub.is_empty()
            invariant
                item == extension_item(),
                get_all(item, whole) == crate::codec::prepend(
                    extensions_view(out@),
                    get_all(item, sub@),
                ),
                r@ == old(r)@,
                match get_vec16(old(r)@) {
                    Some((body, rest)) => body == whole && p@ == rest,
                    None => false,
                },
            decreases sub@.len(),
        {
            proof {
                lemma_get_all_step(item, whole, extensions_view(out@), sub@);
            }
            let ghost before = out@;
            let e = Extension::decode(&mut sub)?;
            out.push(e);
            proof {
                assert(extensions_view(out@) =~= extensions_view(before).push(e@));
            }
        }
        proof {
            lemma_get_all_ends(item, sub@, extensions_view(out@));
        }
        *r = p;
        Ok(out)
    }

    /// The first extension of type `ty`.
    pub fn find<'b>(list: &'b Vec<Extension>, ty: u16) -> (r: Option<&'b Vec<u8>>)
        ensures
            match find_extension(extensions_view(list@), ty) {
                Some(d) => r is Some && r->0@ == d,
                None => r is None,
            },
    {
        let ghost l = extensions_view(list@);
        let mut i: usize = 0;
        while i < list.len()
            invariant
                i <= list.len(),
                l == extensions_view(list@),
                forall|j: int| 0 <= j < i ==> (#[trigger] l[j]).0 != ty,
            decreases list.len() - i,
        {
            assert(l[i as int] == list@[i as int]@);
            if list[i].ty == ty {
                proof {
                    lemma_find_extension(l, ty, i as int);
                }
                return Some(&list[i].data);
            }
            i = i + 1;
        }
        proof {
            lemma_find_extension(l, ty, i as int);
        }
        None
    }
}

} // verus!
