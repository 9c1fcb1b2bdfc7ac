//! The bodies of the handshake extensions, and the two computations over the
//! transcript that authenticate a handshake.

use vstd::prelude::*;

use crate::codec::{
    be16, get_all, get_u16, get_vec16, get_vec8, lemma_be16, lemma_get_all_ends, lemma_get_all_step,
    lemma_vec_round_trip, prepend, put_all, put_slice, put_u16, put_vec_u16, put_vec_u8, to_vec,
    try_put_vec_u16, vec16, vec8, DecodeError, EncodeError, Reader,
};
use crate::crypto::hash::{hash_len, hashable, Algorithm, Digest};
use crate::crypto::kx::{group_id, KexGroup};
use crate::handshake::{lemma_u16_list, put_u16_list, read_u16_list, u16_enc, u16_item};
use crate::psk::{
    byte_strings, finished_mac, finished_verify_data, lemma_vec8_list, put_vec8_list, read_vec8_list,
    vec8_enc, vec8_item, whole,
};

verus! {

pub const TLS_1_3: u16 = 0x0304;

pub const SIG_ECDSA_SECP256R1_SHA256: u16 = 0x0403;

pub const SIG_ECDSA_SECP384R1_SHA384: u16 = 0x0503;

pub const SIG_RSA_PSS_RSAE_SHA256: u16 = 0x0804;

pub const SIG_RSA_PSS_RSAE_SHA384: u16 = 0x0805;

pub const SIG_RSA_PSS_RSAE_SHA512: u16 = 0x0806;

pub const SIG_ED25519: u16 = 0x0807;

pub const CERT_TYPE_X509: u8 = 0;

pub const CERT_TYPE_RAW_PUBLIC_KEY: u8 = 2;

/// The numbers of a list behind a two-byte length that is all of `data`.
pub open spec fn u16_vec16(data: Seq<u8>) -> Result<Seq<u16>, DecodeError> {
    match get_vec16(data) {
        None => Err(DecodeError::UnexpectedEnd),
        Some((body, rest)) => match get_all(u16_item(), body) {
            None => Err(DecodeError::UnexpectedEnd),
            Some(l) => if rest.len() == 0 {
                Ok(l)
            } else {
                Err(DecodeError::Trailing)
            },
        },
    }
}

/// The numbers of a list behind a one-byte length that is all of `data`.
pub open spec fn u16_vec8(data: Seq<u8>) -> Result<Seq<u16>, DecodeError> {
    match get_vec8(data) {
        None => Err(DecodeError::UnexpectedEnd),
        Some((body, rest)) => match get_all(u16_item(), body) {
            None => Err(DecodeError::UnexpectedEnd),
            Some(l) => if rest.len() == 0 {
                Ok(l)
            } else {
                Err(DecodeError::Trailing)
            },
        },
    }
}

/// A list of numbers behind a two-byte length is decoded from its wire form.
pub proof fn law_u16_vec16_round_trip(l: Seq<u16>)
    requires
        2 * l.len() <= 0xffff,
    ensures
        u16_vec16(vec16(put_all(u16_enc(), l))) == Ok::<Seq<u16>, DecodeError>(l),
{
    lemma_u16_list(l);
    let body = put_all(u16_enc(), l);
    lemma_vec_round_trip(body, Seq::empty());
    assert(vec16(body) + Seq::<u8>::empty() =~= vec16(body));
}

fn decode_u16_vec16(data: &[u8]) -> (r: Result<Vec<u16>, DecodeError>)
    ensures
        match u16_vec16(data@) {
            Ok(l) => r is Ok && r->Ok_0@ == l,
            Err(e) => r is Err && r->Err_0 == e,
        },
{
    let mut reader = Reader::new(data);
    let sub = reader.sub_u16()?;
    let out = read_u16_list(sub)?;
    reader.finish()?;
    Ok(out)
}

/// Protocol versions.
pub struct SupportedVersions;

impl SupportedVersions {
    /// A client's extension body: TLS 1.3 only.
    pub fn client_encode() -> (r: Vec<u8>)
        ensures
            r@ == vec8(be16(TLS_1_3)),
    {
        let mut body: Vec<u8> = Vec::new();
        put_u16(&mut body, TLS_1_3);
        assert(body@ =~= be16(TLS_1_3));
        let mut v: Vec<u8> = Vec::new();
        put_vec_u8(&mut v, body.as_slice());
        assert(v@ =~= vec8(be16(TLS_1_3)));
        v
    }

    /// A server's extension body: TLS 1.3.
    pub fn server_encode() -> (r: Vec<u8>)
        ensures
            r@ == be16(TLS_1_3),
    {
        let mut v: Vec<u8> = Vec::new();
        put_u16(&mut v, TLS_1_3);
        assert(v@ =~= be16(TLS_1_3));
        v
    }

    /// The versions a client offers.
    pub fn client_decode(data: &[u8]) -> (r: Result<Vec<u16>, DecodeError>)
        ensures
            match u16_vec8(data@) {
                Ok(l) => r is Ok && r->Ok_0@ == l,
                Err(e) => r is Err && r->Err_0 == e,
            },
    {
        let mut reader = Reader::new(data);
        let sub = reader.sub_u8()?;
        let out = read_u16_list(sub)?;
        reader.finish()?;
        Ok(out)
    }

    /// The version a server chose.
    pub fn server_decode(data: &[u8]) -> (r: Result<u16, DecodeError>)
        ensures
            r == whole(get_u16(data@)),
    {
        let mut reader = Reader::new(data);
        let v: u16 = reader.u16()?;
        reader.finish()?;
        Ok(v)
    }
}

/// Key exchange groups.
pub struct SupportedGroups;

impl SupportedGroups {
    /// The extension body that lists the groups of [`KexGroup::SUPPORTED`].
    pub fn encode() -> (r: Vec<u8>)
        ensures
            r@ == vec16(
                put_all(
                    u16_enc(),
                    seq![
                        group_id(KexGroup::SUPPORTED[0]),
                        group_id(KexGroup::SUPPORTED[1]),
                        group_id(KexGroup::SUPPORTED[2]),
                    ],
                ),
            ),
    {
        let ids: [u16; 3] = [
            KexGroup::SUPPORTED[0].wire_id(),
            KexGroup::SUPPORTED[1].wire_id(),
            KexGroup::SUPPORTED[2].wire_id(),
        ];
        assert(ids@ =~= seq![
            group_id(KexGroup::SUPPORTED[0]),
            group_id(KexGroup::SUPPORTED[1]),
            group_id(KexGroup::SUPPORTED[2]),
        ]);
        let mut v: Vec<u8> = Vec::new();
        put_u16_list(&ids, &mut v);
        assert(v@ =~= vec16(put_all(u16_enc(), ids@)));
        v
    }

    /// The groups a client offers.
    pub fn decode(data: &[u8]) -> (r: Result<Vec<u16>, DecodeError>)
        ensures
            match u16_vec16(data@) {
                Ok(l) => r is Ok && r->Ok_0@ == l,
                Err(e) => r is Err && r->Err_0 == e,
            },
    {
        decode_u16_vec16(data)
    }
}

/// The signature schemes that X.509 authentication accepts, in preference order.
pub open spec fn x509_schemes() -> Seq<u16> {
    seq![
        SIG_ECDSA_SECP256R1_SHA256,
        SIG_RSA_PSS_RSAE_SHA256,
        SIG_ECDSA_SECP384R1_SHA384,
        SIG_RSA_PSS_RSAE_SHA384,
        SIG_RSA_PSS_RSAE_SHA512,
        SIG_ED25519,
    ]
}

/// Signature schemes.
pub struct SignatureAlgorithms;

impl SignatureAlgorithms {
    pub const X509: [u16; 6] = [
        SIG_ECDSA_SECP256R1_SHA256,
        SIG_RSA_PSS_RSAE_SHA256,
        SIG_ECDSA_SECP384R1_SHA384,
        SIG_RSA_PSS_RSAE_SHA384,
        SIG_RSA_PSS_RSAE_SHA512,
        SIG_ED25519,
    ];

    /// The extension body that lists the schemes of X.509 authentication.
    pub fn x509_encode() -> (r: Vec<u8>)
        ensures
            r@ == vec16(put_all(u16_enc(), x509_schemes())),
            r@.len() == 14,
    {
        let list: [u16; 6] = Self::X509;
        assert(list@ =~= x509_schemes());
        proof {
            lemma_u16_list(x509_schemes());
        }
        let mut v: Vec<u8> = Vec::new();
        put_u16_list(&list, &mut v);
        assert(v@ =~= vec16(put_all(u16_enc(), x509_schemes())));
        v
    }

    /// Whether X.509 authentication accepts `scheme`.
    pub fn x509_supported(scheme: u16) -> (r: bool)
        ensures
            r == x509_schemes().contains(scheme),
    {
        let list: [u16; 6] = Self::X509;
        assert(list@ =~= x509_schemes());
        let mut i: usize = 0;
        while i < 6
            invariant
                i <= 6,
                list@ == x509_schemes(),
                list@.len() == 6,
                forall|j: int| 0 <= j < i ==> list@[j] != scheme,
            decreases 6 - i,
        {
            if list[i] == scheme {
                assert(x509_schemes()[i as int] == scheme);
                return true;
            }
            i = i + 1;
        }
        false
    }

    /// The extension body that lists the scheme of raw public keys.
    pub fn rpk_encode() -> (r: Vec<u8>)
        ensures
            r@ == vec16(put_all(u16_enc(), seq![SIG_ED25519])),
    {
        let list: [u16; 1] = [SIG_ED25519];
        assert(list@ =~= seq![SIG_ED25519]);
        let mut v: Vec<u8> = Vec::new();
        put_u16_list(&list, &mut v);
        assert(v@ =~= vec16(put_all(u16_enc(), seq![SIG_ED25519])));
        v
    }

    /// The schemes a peer offers.
    pub fn decode(data: &[u8]) -> (r: Result<Vec<u16>, DecodeError>)
        ensures
            match u16_vec16(data@) {
                Ok(l) => r is Ok && r->Ok_0@ == l,
                Err(e) => r is Err && r->Err_0 == e,
            },
    {
        decode_u16_vec16(data)
    }
}

/// A group's code point and a share in it.
pub type ShareView = (u16, Seq<u8>);

/// The wire form of one share.
pub open spec fn share_bytes(group: KexGroup, pubkey: Seq<u8>) -> Seq<u8> {
    be16(group_id(group)) + vec16(pubkey)
}

/// The share at the front of `s`, and what follows it.
pub open spec fn get_share(s: Seq<u8>) -> Option<(ShareView, Seq<u8>)> {
    match get_u16(s) {
        None => None,
        Some((group, s1)) => match get_vec16(s1) {
            None => None,
            Some((pubkey, rest)) => Some(((group, pubkey), rest)),
        },
    }
}

pub open spec fn share_item() -> spec_fn(Seq<u8>) -> Option<(ShareView, Seq<u8>)> {
    |s: Seq<u8>| get_share(s)
}

/// The shares a client offers.
pub open spec fn client_shares(data: Seq<u8>) -> Result<Seq<ShareView>, DecodeError> {
    match get_vec16(data) {
        None => Err(DecodeError::UnexpectedEnd),
        Some((body, rest)) => match get_all(share_item(), body) {
            None => Err(DecodeError::UnexpectedEnd),
            Some(l) => if rest.len() == 0 {
                Ok(l)
            } else {
                Err(DecodeError::Trailing)
            },
        },
    }
}

/// The first share of `offered` in group `id`.
pub open spec fn first_share(offered: Seq<ShareView>, id: u16) -> Option<Seq<u8>>
    decreases offered.len(),
{
    if offered.len() == 0 {
        None
    } else if offered[0].0 == id {
        Some(offered[0].1)
    } else {
        first_share(offered.skip(1), id)
    }
}

/// The first group of `prefer` that a share was offered in, with the first share
/// offered in it.
pub open spec fn selected_share(offered: Seq<ShareView>, prefer: Seq<KexGroup>) -> Option<
    (KexGroup, Seq<u8>),
>
    decreases prefer.len(),
{
    if prefer.len() == 0 {
        None
    } else {
        match first_share(offered, group_id(prefer[0])) {
            Some(pk) => Some((prefer[0], pk)),
            None => selected_share(offered, prefer.skip(1)),
        }
    }
}

proof fn lemma_first_share(offered: Seq<ShareView>, id: u16, i: int)
    requires
        0 <= i <= offered.len(),
        forall|j: int| 0 <= j < i ==> (#[trigger] offered[j]).0 != id,
    ensures
        i < offered.len() && offered[i].0 == id ==> first_share(offered, id) == Some(offered[i].1),
        i == offered.len() ==> first_share(offered, id) is None,
    decreases i,
{
    if i > 0 {
        let t = offered.skip(1);
        assert forall|j: int| 0 <= j < i - 1 implies (#[trigger] t[j]).0 != id by {
            assert(t[j] == offered[j + 1]);
        }
        assert(offered[0].0 != id);
        lemma_first_share(t, id, i - 1);
        if i < offered.len() {
            assert(t[i - 1] == offered[i]);
        }
    }
}

proof fn lemma_selected_share(offered: Seq<ShareView>, prefer: Seq<KexGroup>, i: int)
    requires
        0 <= i <= prefer.len(),
        forall|j: int|
            0 <= j < i ==> first_share(offered, group_id(#[trigger] prefer[j])) is None,
    ensures
        i < prefer.len() ==> (first_share(offered, group_id(prefer[i])) matches Some(pk)
            ==> selected_share(offered, prefer) == Some((prefer[i], pk))),
        i == prefer.len() ==> selected_share(offered, prefer) is None,
    decreases i,
{
    if i > 0 {
        let t = prefer.skip(1);
        assert forall|j: int| 0 <= j < i - 1 implies first_share(
            offered,
            group_id(#[trigger] t[j]),
        ) is None by {
            assert(t[j] == prefer[j + 1]);
        }
        assert(first_share(offered, group_id(prefer[0])) is None);
        lemma_selected_share(offered, t, i - 1);
        if i < prefer.len() {
            assert(t[i - 1] == prefer[i]);
        }
    }
}

/// What offered shares say.
pub open spec fn shares_view(l: Seq<(u16, Vec<u8>)>) -> Seq<ShareView> {
    l.map_values(|s: (u16, Vec<u8>)| (s.0, s.1@))
}

/// Key shares.
pub struct KeyShare;

impl KeyShare {
    /// A client's extension body with one share.
    pub fn client_encode(group: KexGroup, pubkey: &[u8]) -> (r: Vec<u8>)
        requires
            pubkey@.len() <= 0xffff - 4,
        ensures
            r@ == vec16(share_bytes(group, pubkey@)),
    {
        let one = Self::server_encode(group, pubkey);
        let mut v: Vec<u8> = Vec::new();
        put_vec_u16(&mut v, one.as_slice());
        assert(v@ =~= vec16(share_bytes(group, pubkey@)));
        v
    }

    /// A server's extension body.
    pub fn server_encode(group: KexGroup, pubkey: &[u8]) -> (r: Vec<u8>)
        requires
            pubkey@.len() <= 0xffff,
        ensures
            r@ == share_bytes(group, pubkey@),
    {
        let mut v: Vec<u8> = Vec::new();
        put_u16(&mut v, group.to_u16());
        put_vec_u16(&mut v, pubkey);
        assert(v@ =~= share_bytes(group, pubkey@));
        v
    }

    /// HelloRetryRequest key_share: the selected group only.
    pub fn hrr_encode(group: KexGroup) -> (r: Vec<u8>)
        ensures
            r@ == be16(group_id(group)),
    {
        let mut v: Vec<u8> = Vec::new();
        put_u16(&mut v, group.to_u16());
        assert(v@ =~= be16(group_id(group)));
        v
    }

    fn client_decode(data: &[u8]) -> (r: Result<Vec<(u16, Vec<u8>)>, DecodeError>)
        ensures
            match client_shares(data@) {
                Ok(l) => r is Ok && shares_view(r->Ok_0@) == l,
                Err(e) => r is Err && r->Err_0 == e,
            },
    {
        let mut reader = Reader::new(data);
        let mut entries = reader.sub_u16()?;
        let ghost body = entries@;
        let ghost item = share_item();
        let mut offered: Vec<(u16, Vec<u8>)> = Vec::new();
        proof {
            lemma_get_all_ends(item, body, Seq::<ShareView>::empty());
            assert(shares_view(offered@) =~= Seq::empty());
        }
        while !entries.is_empty()
            invariant
                item == share_item(),
                get_all(item, body) == prepend(shares_view(offered@), get_all(item, entries@)),
                match get_vec16(data@) {
                    Some((b, rest)) => b == body && reader@ == rest,
                    None => false,
                },
            decreases entries@.len(),
        {
            proof {
                lemma_get_all_step(item, body, shares_view(offered@), entries@);
            }
            let ghost before = offered@;
            let group: u16 = entries.u16()?;
            let pubkey = to_vec(entries.vec_u16()?);
            let one = (group, pubkey);
            offered.push(one);
            assert(shares_view(offered@) =~= shares_view(before).push((group, pubkey@)));
        }
        proof {
            lemma_get_all_ends(item, entries@, shares_view(offered@));
        }
        reader.finish()?;
        Ok(offered)
    }

    /// The first offered entry whose group is in `prefer` (server-preference
    /// order), copying only the chosen public key.
    pub fn select_client_entry(data: &[u8], prefer: &[KexGroup]) -> (r: Result<
        Option<(KexGroup, Vec<u8>)>,
        DecodeError,
    >)
        ensures
            match client_shares(data@) {
                Ok(l) => match selected_share(l, prefer@) {
                    Some((g, pk)) => r matches Ok(Some((group, key))) && group == g && key@ == pk,
                    None => r matches Ok(None),
                },
                Err(e) => r is Err && r->Err_0 == e,
            },
    {
        let offered = Self::client_decode(data)?;
        let ghost l = shares_view(offered@);
        let mut p: usize = 0;
        while p < prefer.len()
            invariant
                p <= prefer.len(),
                l == shares_view(offered@),
                client_shares(data@) == Ok::<Seq<ShareView>, DecodeError>(l),
                forall|j: int|
                    0 <= j < p ==> first_share(l, group_id(#[trigger] prefer@[j])) is None,
            decreases prefer.len() - p,
        {
            let id: u16 = prefer[p].to_u16();
            let mut i: usize = 0;
            while i < offered.len()
                invariant
                    i <= offered.len(),
                    p < prefer.len(),
                    l == shares_view(offered@),
                    id == group_id(prefer@[p as int]),
                    client_shares(data@) == Ok::<Seq<ShareView>, DecodeError>(l),
                    forall|j: int|
                        0 <= j < p ==> first_share(l, group_id(#[trigger] prefer@[j])) is None,
                    forall|j: int| 0 <= j < i ==> (#[trigger] l[j]).0 != id,
                decreases offered.len() - i,
            {
                assert(l[i as int] == (offered@[i as int].0, offered@[i as int].1@));
                if offered[i].0 == id {
                    proof {
                        lemma_first_share(l, id, i as int);
                        lemma_selected_share(l, prefer@, p as int);
                    }
                    return Ok(Some((prefer[p], to_vec(offered[i].1.as_slice()))));
                }
                i = i + 1;
            }
            proof {
                lemma_first_share(l, id, i as int);
            }
            p = p + 1;
        }
        proof {
            lemma_selected_share(l, prefer@, p as int);
        }
        Ok(None)
    }

    /// A HelloRetryRequest key_share carries only the server's selected group, not
    /// a full KeyShareEntry.
    pub fn hrr_selected_group(data: &[u8]) -> (r: Result<u16, DecodeError>)
        ensures
            r == whole(get_u16(data@)),
    {
        let mut reader = Reader::new(data);
        let group: u16 = reader.u16()?;
        reader.finish()?;
        Ok(group)
    }

    /// The group and share of a server's extension body.
    pub fn server_decode(data: &[u8]) -> (r: Result<(u16, Vec<u8>), DecodeError>)
        ensures
            match whole(get_share(data@)) {
                Ok((g, pk)) => r is Ok && r->Ok_0.0 == g && r->Ok_0.1@ == pk,
                Err(e) => r is Err && r->Err_0 == e,
            },
    {
        let mut reader = Reader::new(data);
        let group: u16 = reader.u16()?;
        let pubkey = to_vec(reader.vec_u16()?);
        reader.finish()?;
        Ok((group, pubkey))
    }
}

/// A server's share is decoded from its wire form.
pub proof fn law_server_share_round_trip(group: KexGroup, pubkey: Seq<u8>)
    requires
        pubkey.len() <= 0xffff,
    ensures
        whole(get_share(share_bytes(group, pubkey))) == Ok::<ShareView, DecodeError>(
            (group_id(group), pubkey),
        ),
{
    let e = Seq::<u8>::empty();
    lemma_be16(group_id(group), vec16(pubkey));
    lemma_vec_round_trip(pubkey, e);
    assert(vec16(pubkey) + e =~= vec16(pubkey));
}

/// A client's single share is selected by a server that prefers its group.
pub proof fn law_client_share_selected(group: KexGroup, pubkey: Seq<u8>)
    requires
        pubkey.len() <= 0xffff - 4,
    ensures
        client_shares(vec16(share_bytes(group, pubkey))) == Ok::<Seq<ShareView>, DecodeError>(
            seq![(group_id(group), pubkey)],
        ),
        selected_share(seq![(group_id(group), pubkey)], seq![group]) == Some((group, pubkey)),
{
    let e = Seq::<u8>::empty();
    let one = share_bytes(group, pubkey);
    lemma_be16(group_id(group), vec16(pubkey));
    lemma_vec_round_trip(pubkey, e);
    assert(vec16(pubkey) + e =~= vec16(pubkey));
    lemma_vec_round_trip(one, e);
    assert(vec16(one) + e =~= vec16(one));
    assert(get_share(one) == Some(((group_id(group), pubkey), e)));
    reveal_with_fuel(get_all, 2);
    assert(seq![(group_id(group), pubkey)] + Seq::<ShareView>::empty() =~= seq![
        (group_id(group), pubkey),
    ]);
}

/// The wire form of a list of protocols.
pub open spec fn alpn_bytes(protocols: Seq<Seq<u8>>) -> Seq<u8> {
    vec16(put_all(vec8_enc(), protocols))
}

/// Whether every protocol, and the list, fits its length prefix.
pub open spec fn alpn_fits(protocols: Seq<Seq<u8>>) -> bool {
    &&& forall|i: int| 0 <= i < protocols.len() ==> (#[trigger] protocols[i]).len() <= 0xff
    &&& put_all(vec8_enc(), protocols).len() <= 0xffff
}

/// The protocols that `data` lists.
pub open spec fn alpn_list(data: Seq<u8>) -> Result<Seq<Seq<u8>>, DecodeError> {
    match get_vec16(data) {
        None => Err(DecodeError::UnexpectedEnd),
        Some((body, rest)) => match get_all(vec8_item(), body) {
            None => Err(DecodeError::UnexpectedEnd),
            Some(l) => if rest.len() == 0 {
                Ok(l)
            } else {
                Err(DecodeError::Trailing)
            },
        },
    }
}

/// A list of protocols is decoded from its wire form.
pub proof fn law_alpn_round_trip(protocols: Seq<Seq<u8>>)
    requires
        alpn_fits(protocols),
    ensures
        alpn_list(alpn_bytes(protocols)) == Ok::<Seq<Seq<u8>>, DecodeError>(protocols),
{
    lemma_vec8_list(protocols);
    let body = put_all(vec8_enc(), protocols);
    lemma_vec_round_trip(body, Seq::empty());
    assert(vec16(body) + Seq::<u8>::empty() =~= vec16(body));
}

/// Application protocols.
pub struct Alpn;

impl Alpn {
    /// The extension body that lists `protocols`.
    pub fn encode(protocols: &[Vec<u8>]) -> (r: Result<Vec<u8>, EncodeError>)
        ensures
            alpn_fits(byte_strings(protocols@)) ==> r is Ok && r->Ok_0@ == alpn_bytes(
                byte_strings(protocols@)),
            !alpn_fits(byte_strings(protocols@)) ==> r is Err && r->Err_0 == EncodeError::Overflow,
    {
        let ghost l = byte_strings(protocols@);
        let mut i: usize = 0;
        while i < protocols.len()
            invariant
                i <= protocols.len(),
                l == byte_strings(protocols@),
                forall|j: int| 0 <= j < i ==> (#[trigger] l[j]).len() <= 0xff,
            decreases protocols.len() - i,
        {
            assert(l[i as int] == protocols@[i as int]@);
            if protocols[i].len() > 0xff {
                assert(l[i as int].len() > 0xff);
                return Err(EncodeError::Overflow);
            }
            i = i + 1;
        }
        let body = put_vec8_list(protocols);
        let mut v: Vec<u8> = Vec::new();
        try_put_vec_u16(&mut v, body.as_slice())?;
        assert(v@ =~= alpn_bytes(l));
        Ok(v)
    }

    /// The protocols that the extension body lists.
    pub fn decode(data: &[u8]) -> (r: Result<Vec<Vec<u8>>, DecodeError>)
        ensures
            match alpn_list(data@) {
                Ok(l) => r is Ok && byte_strings(r->Ok_0@) == l,
                Err(e) => r is Err && r->Err_0 == e,
            },
    {
        let mut reader = Reader::new(data);
        let list = reader.sub_u16()?;
        let out = read_vec8_list(list)?;
        reader.finish()?;
        Ok(out)
    }
}

/// The name of the server a client wants.
pub struct ServerName;

impl ServerName {
    /// The extension body that holds one host name.
    pub fn encode(hostname: &[u8]) -> (r: Result<Vec<u8>, EncodeError>)
        ensures
            hostname@.len() + 3 <= 0xffff ==> r is Ok && r->Ok_0@ == vec16(
                seq![0u8] + vec16(hostname@)),
            hostname@.len() + 3 > 0xffff ==> r is Err && r->Err_0 == EncodeError::Overflow,
    {
        let mut body: Vec<u8> = Vec::new();
        body.push(0);
        try_put_vec_u16(&mut body, hostname)?;
        assert(body@ =~= seq![0u8] + vec16(hostname@));
        let mut v: Vec<u8> = Vec::new();
        try_put_vec_u16(&mut v, body.as_slice())?;
        assert(v@ =~= vec16(body@));
        Ok(v)
    }
}

/// Certificate types.
pub struct CertType;

impl CertType {
    /// A client's extension body with one type.
    pub fn encode_list(ty: u8) -> (r: Vec<u8>)
        ensures
            r@ == vec8(seq![ty]),
    {
        let body: Vec<u8> = vec![ty];
        let mut v: Vec<u8> = Vec::new();
        put_vec_u8(&mut v, body.as_slice());
        assert(body@ =~= seq![ty]);
        assert(v@ =~= vec8(seq![ty]));
        v
    }

    /// A server's extension body.
    pub fn encode_single(ty: u8) -> (r: Vec<u8>)
        ensures
            r@ == seq![ty],
    {
        let v: Vec<u8> = vec![ty];
        assert(v@ =~= seq![ty]);
        v
    }

    /// The types a client offers.
    pub fn decode_list(data: &[u8]) -> (r: Result<Vec<u8>, DecodeError>)
        ensures
            match whole(get_vec8(data@)) {
                Ok(l) => r is Ok && r->Ok_0@ == l,
                Err(e) => r is Err && r->Err_0 == e,
            },
    {
        let mut reader = Reader::new(data);
        let out = to_vec(reader.vec_u8()?);
        reader.finish()?;
        Ok(out)
    }
}

/// What a CertificateVerify signature is made over: 64 spaces, who signs, a zero,
/// and the transcript hash.
pub open spec fn verify_message(transcript_hash: Seq<u8>, from_server: bool) -> Seq<u8> {
    Seq::new(64, |i: int| 0x20u8) + verify_context(from_server) + seq![0u8] + transcript_hash
}

/// "TLS 1.3, server CertificateVerify" or "TLS 1.3, client CertificateVerify".
pub open spec fn verify_context(from_server: bool) -> Seq<u8> {
    if from_server {
        SERVER_VERIFY_CONTEXT@
    } else {
        CLIENT_VERIFY_CONTEXT@
    }
}

/// "TLS 1.3, server CertificateVerify".
pub const SERVER_VERIFY_CONTEXT: [u8; 33] = [
    0x54, 0x4c, 0x53, 0x20, 0x31, 0x2e, 0x33, 0x2c, 0x20, 0x73, 0x65, 0x72, 0x76, 0x65, 0x72, 0x20,
    0x43, 0x65, 0x72, 0x74, 0x69, 0x66, 0x69, 0x63, 0x61, 0x74, 0x65, 0x56, 0x65, 0x72, 0x69, 0x66,
    0x79,
];

/// "TLS 1.3, client CertificateVerify".
pub const CLIENT_VERIFY_CONTEXT: [u8; 33] = [
    0x54, 0x4c, 0x53, 0x20, 0x31, 0x2e, 0x33, 0x2c, 0x20, 0x63, 0x6c, 0x69, 0x65, 0x6e, 0x74, 0x20,
    0x43, 0x65, 0x72, 0x74, 0x69, 0x66, 0x69, 0x63, 0x61, 0x74, 0x65, 0x56, 0x65, 0x72, 0x69, 0x66,
    0x79,
];

/// A client's signature is never made over what a server's is made over.
pub proof fn law_verify_roles_differ(a: Seq<u8>, b: Seq<u8>)
    ensures
        verify_message(a, true) != verify_message(b, false),
{
    assert(verify_message(a, true)[73] == SERVER_VERIFY_CONTEXT@[9]);
    assert(verify_message(b, false)[73] == CLIENT_VERIFY_CONTEXT@[9]);
}

/// What CertificateVerify signatures are made over.
pub struct CertVerify;

impl CertVerify {
    /// What a signature of the server or the client is made over.
    pub fn message(transcript_hash: &[u8], from_server: bool) -> (r: Vec<u8>)
        ensures
            r@ == verify_message(transcript_hash@, from_server),
    {
        let mut msg: Vec<u8> = Vec::new();
        let mut i: usize = 0;
        while i < 64
            invariant
                i <= 64,
                msg@ == Seq::new(i as nat, |i: int| 0x20u8),
            decreases 64 - i,
        {
            msg.push(0x20);
            i = i + 1;
            assert(msg@ =~= Seq::new(i as nat, |i: int| 0x20u8));
        }
        if from_server {
            put_slice(&mut msg, &SERVER_VERIFY_CONTEXT);
        } else {
            put_slice(&mut msg, &CLIENT_VERIFY_CONTEXT);
        }
        msg.push(0x00);
        put_slice(&mut msg, transcript_hash);
        assert(msg@ =~= verify_message(transcript_hash@, from_server));
        msg
    }
}

/// What Finished messages say.
pub struct Finished;

impl Finished {
    /// What a Finished message under `traffic_secret` says of a transcript.
    pub fn verify_data(alg: Algorithm, traffic_secret: &[u8], transcript_hash: &[u8]) -> (r: Digest)
        requires
            hashable(traffic_secret@),
            hashable(transcript_hash@),
        ensures
            r@ == finished_mac(alg, traffic_secret@, transcript_hash@),
            r@.len() == hash_len(alg),
    {
        let mac = finished_verify_data(alg, traffic_secret, transcript_hash);
        Digest::from_slice(mac.as_slice())
    }
}

} // verus!
