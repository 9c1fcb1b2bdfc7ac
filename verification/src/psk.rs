//! The pre-shared key extensions, and the binder that proves a key's possession.

use vstd::prelude::*;

use crate::codec::{
    be16, be32, get_all, get_u16, get_u32, get_vec16, get_vec8, lemma_be16, lemma_be32,
    lemma_be32_canonical, lemma_get_all_ends, lemma_get_all_step, lemma_get_put_all, lemma_put_all_push,
    lemma_put_get_all, lemma_vec16_canonical, lemma_vec8_canonical, lemma_vec_round_trip, prepend, put_all,
    put_u16, put_u32, put_vec_u16, put_vec_u8, to_array, to_vec, vec16, vec8, DecodeError, Reader,
};
use crate::crypto::hash::{
    digest_of, hash_len, hashable, wipe, Algorithm, Transcript, SHA256_LEN,
};
use crate::crypto::kdf::{
    derived_secret, hkdf_expand_label, hmac_of, label_bytes, lemma_derives, lemma_label_lengths,
    ring_hmac, zeros, Hkdf,
};
use crate::crypto::schedule::{early_secret, resumption_hash};

verus! {

pub const KX_MODE_PSK_DHE: u8 = 1;

/// What was read, where nothing is left over.
pub open spec fn whole<T>(r: Option<(T, Seq<u8>)>) -> Result<T, DecodeError> {
    match r {
        None => Err(DecodeError::UnexpectedEnd),
        Some((v, rest)) => if rest.len() == 0 {
            Ok(v)
        } else {
            Err(DecodeError::Trailing)
        },
    }
}

/// A ticket that a client offers, and how old it says the ticket is.
#[derive(Debug, Clone, PartialEq, Eq)]
pub struct PskIdentity {
    pub identity: Vec<u8>,
    pub obfuscated_ticket_age: u32,
}

/// An offered ticket and its obfuscated age.
pub type PskIdentityView = (Seq<u8>, u32);

impl View for PskIdentity {
    type V = PskIdentityView;

    open spec fn view(&self) -> PskIdentityView {
        (self.identity@, self.obfuscated_ticket_age)
    }
}

/// The modes in which a client would use a pre-shared key.
pub struct KxModes;

impl KxModes {
    /// The body of the extension.
    pub fn encode(modes: &[u8]) -> (r: Vec<u8>)
        requires
            modes@.len() <= 0xff,
        ensures
            r@ == vec8(modes@),
    {
        let mut out: Vec<u8> = Vec::new();
        put_vec_u8(&mut out, modes);
        assert(out@ =~= vec8(modes@));
        out
    }

    /// The modes that the body of the extension lists.
    pub fn decode(data: &[u8]) -> (r: Result<Vec<u8>, DecodeError>)
        ensures
            match whole(get_vec8(data@)) {
                Ok(m) => r is Ok && r->Ok_0@ == m,
                Err(e) => r is Err && r->Err_0 == e,
            },
    {
        let mut reader = Reader::new(data);
        let modes = to_vec(reader.vec_u8()?);
        reader.finish()?;
        Ok(modes)
    }
}

/// Modes are decoded from their wire form.
pub proof fn law_modes_round_trip(modes: Seq<u8>)
    requires
        modes.len() <= 0xff,
    ensures
        whole(get_vec8(vec8(modes))) == Ok::<Seq<u8>, DecodeError>(modes),
{
    lemma_vec_round_trip(modes, Seq::empty());
    assert(vec8(modes) + Seq::<u8>::empty() =~= vec8(modes));
}

/// The wire form of an offered ticket.
pub open spec fn identity_bytes(i: PskIdentityView) -> Seq<u8> {
    vec16(i.0) + be32(i.1)
}

/// The offered ticket at the front of `s`, and what follows it.
pub open spec fn get_identity(s: Seq<u8>) -> Option<(PskIdentityView, Seq<u8>)> {
    match get_vec16(s) {
        None => None,
        Some((identity, s1)) => match get_u32(s1) {
            None => None,
            Some((age, rest)) => Some(((identity, age), rest)),
        },
    }
}

pub open spec fn identity_item() -> spec_fn(Seq<u8>) -> Option<(PskIdentityView, Seq<u8>)> {
    |s: Seq<u8>| get_identity(s)
}

pub open spec fn identity_enc() -> spec_fn(PskIdentityView) -> Seq<u8> {
    |i: PskIdentityView| identity_bytes(i)
}

pub open spec fn vec8_item() -> spec_fn(Seq<u8>) -> Option<(Seq<u8>, Seq<u8>)> {
    |s: Seq<u8>| get_vec8(s)
}

pub open spec fn vec8_enc() -> spec_fn(Seq<u8>) -> Seq<u8> {
    |b: Seq<u8>| vec8(b)
}

/// Byte strings behind one-byte lengths read back from their wire forms.
pub proof fn lemma_vec8_list(l: Seq<Seq<u8>>)
    requires
        forall|i: int| 0 <= i < l.len() ==> (#[trigger] l[i]).len() <= 0xff,
    ensures
        get_all(vec8_item(), put_all(vec8_enc(), l)) == Some(l),
{
    let enc = vec8_enc();
    let item = vec8_item();
    assert forall|i: int, rest: Seq<u8>|
        #![trigger enc(l[i]) + rest]
        0 <= i < l.len() implies enc(l[i]).len() > 0 && item(enc(l[i]) + rest) == Some(
        (l[i], rest),
    ) by {
        lemma_vec_round_trip(l[i], rest);
    }
    lemma_get_put_all(item, enc, l);
}

/// What byte vectors hold.
pub open spec fn byte_strings(l: Seq<Vec<u8>>) -> Seq<Seq<u8>> {
    l.map_values(|b: Vec<u8>| b@)
}

/// What offered tickets say.
pub open spec fn identities_view(l: Seq<PskIdentity>) -> Seq<PskIdentityView> {
    l.map_values(|i: PskIdentity| i@)
}

/// The wire form of an offer of tickets.
pub open spec fn offer_bytes(identities: Seq<PskIdentityView>, binders: Seq<Seq<u8>>) -> Seq<u8> {
    vec16(put_all(identity_enc(), identities)) + vec16(put_all(vec8_enc(), binders))
}

/// Whether every part of an offer fits its length prefix.
pub open spec fn offer_fits(identities: Seq<PskIdentityView>, binders: Seq<Seq<u8>>) -> bool {
    &&& forall|i: int| 0 <= i < identities.len() ==> (#[trigger] identities[i]).0.len() <= 0xffff
    &&& forall|i: int| 0 <= i < binders.len() ==> (#[trigger] binders[i]).len() <= 0xff
    &&& put_all(identity_enc(), identities).len() <= 0xffff
    &&& put_all(vec8_enc(), binders).len() <= 0xffff
}

/// The tickets and binders that `s` offers: as many of one as of the other, and
/// nothing left over.
pub open spec fn get_offer(s: Seq<u8>) -> Result<(Seq<PskIdentityView>, Seq<Seq<u8>>), DecodeError> {
    match get_vec16(s) {
        None => Err(DecodeError::UnexpectedEnd),
        Some((ids, s1)) => match get_all(identity_item(), ids) {
            None => Err(DecodeError::UnexpectedEnd),
            Some(identities) => match get_vec16(s1) {
                None => Err(DecodeError::UnexpectedEnd),
                Some((bs, rest)) => match get_all(vec8_item(), bs) {
                    None => Err(DecodeError::UnexpectedEnd),
                    Some(binders) => if rest.len() != 0 || identities.len() != binders.len() {
                        Err(DecodeError::Trailing)
                    } else {
                        Ok((identities, binders))
                    },
                },
            },
        },
    }
}

/// An offer with a binder for each ticket is decoded from its wire form; one with more
/// of one than of the other is refused.
pub proof fn law_offer_round_trip(identities: Seq<PskIdentityView>, binders: Seq<Seq<u8>>)
    requires
        offer_fits(identities, binders),
    ensures
        get_offer(offer_bytes(identities, binders)) == if identities.len() == binders.len() {
            Ok::<(Seq<PskIdentityView>, Seq<Seq<u8>>), DecodeError>((identities, binders))
        } else {
            Err(DecodeError::Trailing)
        },
{
    let enc = identity_enc();
    let item = identity_item();
    assert forall|i: int, rest: Seq<u8>|
        #![trigger enc(identities[i]) + rest]
        0 <= i < identities.len() implies enc(identities[i]).len() > 0 && item(
        enc(identities[i]) + rest,
    ) == Some((identities[i], rest)) by {
        let x = identities[i];
        assert(enc(x) + rest =~= vec16(x.0) + (be32(x.1) + rest));
        lemma_vec_round_trip(x.0, be32(x.1) + rest);
        lemma_be32(x.1, rest);
    }
    lemma_get_put_all(item, enc, identities);
    lemma_vec8_list(binders);
    let e = Seq::<u8>::empty();
    let ids = put_all(enc, identities);
    let bs = put_all(vec8_enc(), binders);
    lemma_vec_round_trip(ids, vec16(bs));
    lemma_vec_round_trip(bs, e);
    assert(vec16(bs) + e =~= vec16(bs));
}

/// An offer that is decoded has a binder for each ticket, and encodes to the bytes it
/// was decoded from.
pub proof fn law_offer_canonical(data: Seq<u8>)
    requires
        get_offer(data) is Ok,
    ensures
        ({
            let (identities, binders) = get_offer(data)->Ok_0;
            &&& identities.len() == binders.len()
            &&& offer_fits(identities, binders)
            &&& offer_bytes(identities, binders) == data
        }),
{
    let (identities, binders) = get_offer(data)->Ok_0;
    let (ids, s1) = get_vec16(data)->0;
    let (bs, rest) = get_vec16(s1)->0;
    assert(data == vec16(ids) + s1 && ids.len() <= 0xffff) by {
        lemma_vec16_canonical(data);
    }
    assert(s1 == vec16(bs) + rest && bs.len() <= 0xffff) by {
        lemma_vec16_canonical(s1);
    }
    lemma_identities_canonical(ids);
    lemma_binders_canonical(bs);
    assert(rest =~= Seq::<u8>::empty());
    assert(vec16(ids) + (vec16(bs) + rest) =~= vec16(ids) + vec16(bs));
}

proof fn lemma_identities_canonical(s: Seq<u8>)
    requires
        get_all(identity_item(), s) is Some,
    ensures
        put_all(identity_enc(), get_all(identity_item(), s)->0) == s,
        forall|i: int|
            0 <= i < get_all(identity_item(), s)->0.len() ==> (#[trigger] get_all(
                identity_item(),
                s,
            )->0[i]).0.len() <= 0xffff,
{
    let item = identity_item();
    let enc = identity_enc();
    assert forall|w: Seq<u8>| #[trigger] item(w) matches Some((t, rest)) ==> w == enc(t) + rest by {
        lemma_identity_canonical(w);
    }
    lemma_put_get_all(item, enc, s);
    lemma_identity_lengths(s);
}

proof fn lemma_identity_canonical(w: Seq<u8>)
    ensures
        get_identity(w) matches Some((t, rest)) ==> t.0.len() <= 0xffff && w == identity_bytes(t) + rest,
{
    if let Some((t, rest)) = get_identity(w) {
        let (b, w1) = get_vec16(w)->0;
        lemma_vec16_canonical(w);
        lemma_be32_canonical(w1);
        assert(vec16(b) + (be32(t.1) + rest) =~= (vec16(b) + be32(t.1)) + rest);
    }
}

proof fn lemma_binders_canonical(s: Seq<u8>)
    requires
        get_all(vec8_item(), s) is Some,
    ensures
        put_all(vec8_enc(), get_all(vec8_item(), s)->0) == s,
        forall|i: int|
            0 <= i < get_all(vec8_item(), s)->0.len() ==> (#[trigger] get_all(vec8_item(), s)->0[i]).len()
                <= 0xff,
{
    let item = vec8_item();
    let enc = vec8_enc();
    assert forall|w: Seq<u8>| #[trigger] item(w) matches Some((t, rest)) ==> w == enc(t) + rest by {
        lemma_vec8_canonical(w);
    }
    lemma_put_get_all(item, enc, s);
    lemma_binder_lengths(s);
}

proof fn lemma_identity_lengths(s: Seq<u8>)
    ensures
        get_all(identity_item(), s) matches Some(l) ==> forall|i: int|
            0 <= i < l.len() ==> (#[trigger] l[i]).0.len() <= 0xffff,
    decreases s.len(),
{
    if s.len() > 0 {
        lemma_identity_canonical(s);
        if let Some((t, rest)) = identity_item()(s) {
            if rest.len() < s.len() {
                lemma_identity_lengths(rest);
            }
        }
    }
}

proof fn lemma_binder_lengths(s: Seq<u8>)
    ensures
        get_all(vec8_item(), s) matches Some(l) ==> forall|i: int|
            0 <= i < l.len() ==> (#[trigger] l[i]).len() <= 0xff,
    decreases s.len(),
{
    if s.len() > 0 {
        lemma_vec8_canonical(s);
        if let Some((t, rest)) = vec8_item()(s) {
            if rest.len() < s.len() {
                lemma_binder_lengths(rest);
            }
        }
    }
}

/// Appends byte strings, each behind a one-byte length, to an empty buffer.
pub(crate) fn put_vec8_list(list: &[Vec<u8>]) -> (body: Vec<u8>)
    requires
        forall|i: int| 0 <= i < list@.len() ==> (#[trigger] byte_strings(list@)[i]).len() <= 0xff,
    ensures
        body@ == put_all(vec8_enc(), byte_strings(list@)),
{
    let ghost l = byte_strings(list@);
    let mut body: Vec<u8> = Vec::new();
    let mut i: usize = 0;
    assert(l.take(0) =~= Seq::empty());
    while i < list.len()
        invariant
            i <= list.len(),
            l == byte_strings(list@),
            forall|j: int| 0 <= j < l.len() ==> (#[trigger] l[j]).len() <= 0xff,
            body@ == put_all(vec8_enc(), l.take(i as int)),
        decreases list.len() - i,
    {
        assert(l[i as int] == list@[i as int]@);
        put_vec_u8(&mut body, list[i].as_slice());
        proof {
            lemma_put_all_push(vec8_enc(), l.take(i as int), l[i as int]);
            assert(l.take(i as int).push(l[i as int]) =~= l.take(i + 1));
        }
        i = i + 1;
    }
    assert(l.take(i as int) =~= l);
    body
}

/// Reads byte strings, each behind a one-byte length, up to the end of `r`.
pub(crate) fn read_vec8_list<'a>(r: Reader<'a>) -> (res: Result<Vec<Vec<u8>>, DecodeError>)
    ensures
        match get_all(vec8_item(), r@) {
            Some(l) => res is Ok && byte_strings(res->Ok_0@) == l,
            None => res is Err && res->Err_0 == DecodeError::UnexpectedEnd,
        },
{
    let mut sub = r;
    let mut out: Vec<Vec<u8>> = Vec::new();
    let ghost item = vec8_item();
    proof {
        lemma_get_all_ends(item, r@, Seq::<Seq<u8>>::empty());
        assert(byte_strings(out@) =~= Seq::empty());
    }
    while !sub.is_empty()
        invariant
            item == vec8_item(),
            get_all(item, r@) == prepend(byte_strings(out@), get_all(item, sub@)),
        decreases sub@.len(),
    {
        proof {
            lemma_get_all_step(item, r@, byte_strings(out@), sub@);
        }
        let ghost before = out@;
        let b = to_vec(sub.vec_u8()?);
        out.push(b);
        assert(byte_strings(out@) =~= byte_strings(before).push(b@));
    }
    proof {
        lemma_get_all_ends(item, sub@, byte_strings(out@));
    }
    Ok(out)
}

/// A client's offer of tickets.
pub struct Offer;

impl Offer {
    /// The body of the extension.
    pub fn encode(identities: &[PskIdentity], binders: &[Vec<u8>]) -> (r: Vec<u8>)
        requires
            offer_fits(identities_view(identities@), byte_strings(binders@)),
        ensures
            r@ == offer_bytes(identities_view(identities@), byte_strings(binders@)),
    {
        let ghost l = identities_view(identities@);
        let mut ids: Vec<u8> = Vec::new();
        let mut i: usize = 0;
        assert(l.take(0) =~= Seq::empty());
        while i < identities.len()
            invariant
                i <= identities.len(),
                l == identities_view(identities@),
                forall|j: int| 0 <= j < l.len() ==> (#[trigger] l[j]).0.len() <= 0xffff,
                ids@ == put_all(identity_enc(), l.take(i as int)),
            decreases identities.len() - i,
        {
            assert(l[i as int] == identities@[i as int]@);
            let ghost before = ids@;
            put_vec_u16(&mut ids, identities[i].identity.as_slice());
            put_u32(&mut ids, identities[i].obfuscated_ticket_age);
            proof {
                assert(ids@ =~= before + identity_bytes(l[i as int]));
                lemma_put_all_push(identity_enc(), l.take(i as int), l[i as int]);
                assert(l.take(i as int).push(l[i as int]) =~= l.take(i + 1));
            }
            i = i + 1;
        }
        assert(l.take(i as int) =~= l);
        let bs = put_vec8_list(binders);
        let mut out: Vec<u8> = Vec::new();
        put_vec_u16(&mut out, ids.as_slice());
        put_vec_u16(&mut out, bs.as_slice());
        assert(out@ =~= offer_bytes(l, byte_strings(binders@)));
        out
    }

    /// The tickets and binders that the body of the extension offers.
    pub fn decode(data: &[u8]) -> (r: Result<(Vec<PskIdentity>, Vec<Vec<u8>>), DecodeError>)
        ensures
            match get_offer(data@) {
                Ok((ids, binders)) => r is Ok && identities_view(r->Ok_0.0@) == ids && byte_strings(
                    r->Ok_0.1@) == binders,
                Err(e) => r is Err && r->Err_0 == e,
            },
    {
        let mut reader = Reader::new(data);
        let mut id_sub = reader.sub_u16()?;
        let ghost id_bytes = id_sub@;
        let ghost item = identity_item();
        let mut identities: Vec<PskIdentity> = Vec::new();
        proof {
            lemma_get_all_ends(item, id_bytes, Seq::<PskIdentityView>::empty());
            assert(identities_view(identities@) =~= Seq::empty());
        }
        while !id_sub.is_empty()
            invariant
                item == identity_item(),
                get_all(item, id_bytes) == prepend(
                    identities_view(identities@),
                    get_all(item, id_sub@),
                ),
                match get_vec16(data@) {
                    Some((ids, s1)) => ids == id_bytes && reader@ == s1,
                    None => false,
                },
            decreases id_sub@.len(),
        {
            proof {
                lemma_get_all_step(item, id_bytes, identities_view(identities@), id_sub@);
            }
            let ghost before = identities@;
            let identity = to_vec(id_sub.vec_u16()?);
            let obfuscated_ticket_age: u32 = id_sub.u32()?;
            let one = PskIdentity { identity, obfuscated_ticket_age };
            identities.push(one);
            assert(identities_view(identities@) =~= identities_view(before).push(one@));
        }
        proof {
            lemma_get_all_ends(item, id_sub@, identities_view(identities@));
        }
        let bs_sub = reader.sub_u16()?;
        let binders = read_vec8_list(bs_sub)?;
        reader.finish()?;
        assert(identities_view(identities@).len() == identities@.len());
        assert(byte_strings(binders@).len() == binders@.len());
        if identities.len() != binders.len() {
            return Err(DecodeError::Trailing);
        }
        Ok((identities, binders))
    }
}

/// The ticket that a server accepted.
pub struct SelectedIdentity;

impl SelectedIdentity {
    /// The body of the extension.
    pub fn encode(selected_identity: u16) -> (r: Vec<u8>)
        ensures
            r@ == be16(selected_identity),
    {
        let mut out: Vec<u8> = Vec::new();
        put_u16(&mut out, selected_identity);
        assert(out@ =~= be16(selected_identity));
        out
    }

    /// The index that the body of the extension names.
    pub fn decode(data: &[u8]) -> (r: Result<u16, DecodeError>)
        ensures
            r == whole(get_u16(data@)),
    {
        let mut reader = Reader::new(data);
        let v: u16 = reader.u16()?;
        reader.finish()?;
        Ok(v)
    }
}

/// A selected index is decoded from its wire form.
pub proof fn law_selected_identity_round_trip(v: u16)
    ensures
        whole(get_u16(be16(v))) == Ok::<u16, DecodeError>(v),
{
    lemma_be16(v, Seq::empty());
    assert(be16(v) + Seq::<u8>::empty() =~= be16(v));
}

/// The key that authenticates a Finished message under a traffic secret.
pub open spec fn finished_key(alg: Algorithm, secret: Seq<u8>) -> Seq<u8> {
    hkdf_expand_label(alg, secret, label_bytes("finished"), Seq::empty(), hash_len(alg))->Ok_0
}

/// What a Finished message under a secret says of a transcript.
pub open spec fn finished_mac(alg: Algorithm, secret: Seq<u8>, transcript_hash: Seq<u8>) -> Seq<u8> {
    hmac_of(alg, finished_key(alg, secret), transcript_hash)
}

/// The secret that a ticket's binder is made under.
pub open spec fn binder_key(psk: Seq<u8>) -> Seq<u8> {
    derived_secret(
        resumption_hash(),
        early_secret(resumption_hash(), psk),
        label_bytes("res binder"),
        digest_of(resumption_hash(), Seq::empty()),
    )->Ok_0
}

/// The binder of a ticket with key `psk` over a ClientHello up to its binders.
pub open spec fn binder(psk: Seq<u8>, partial_ch_hash: Seq<u8>) -> Seq<u8> {
    finished_mac(resumption_hash(), binder_key(psk), partial_ch_hash)
}

/// What a Finished message under `secret` says of a transcript.
pub(crate) fn finished_verify_data(alg: Algorithm, secret: &[u8], transcript_hash: &[u8]) -> (r: Vec<u8>)
    requires
        hashable(secret@),
        hashable(transcript_hash@),
    ensures
        r@ == finished_mac(alg, secret@, transcript_hash@),
        r@.len() == hash_len(alg),
{
    let none: [u8; 0] = [];
    assert(none@ =~= Seq::<u8>::empty());
    proof {
        lemma_label_lengths();
    }
    let mut key: Vec<u8> = zeros(alg.output_len());
    let done = Hkdf::new(alg).expand_label(secret, "finished", &none, key.as_mut_slice());
    assert(done is Ok);
    let mac = ring_hmac(alg, key.as_slice(), transcript_hash);
    wipe(key.as_mut_slice());
    mac
}

/// The proof that whoever offers a ticket holds its key.
pub struct ResumptionBinder;

impl ResumptionBinder {
    /// The binder of a ticket with key `psk` over a ClientHello up to its
    /// binders.
    pub fn compute(psk: &[u8; SHA256_LEN], partial_ch_hash: &[u8]) -> (r: [u8; SHA256_LEN])
        requires
            hashable(partial_ch_hash@),
        ensures
            r@ == binder(psk@, partial_ch_hash@),
    {
        let zero = zeros(SHA256_LEN);
        let hkdf = Hkdf::new(Algorithm::Sha256);
        let early = hkdf.extract(zero.as_slice(), psk);
        let empty = Transcript::hash_empty(Algorithm::Sha256);
        proof {
            lemma_label_lengths();
            lemma_derives(Algorithm::Sha256, early@, label_bytes("res binder"), empty@);
        }
        let derived = hkdf.derive_secret(early.as_slice(), "res binder", empty.as_slice());
        let key = derived.unwrap();
        let mac = finished_verify_data(Algorithm::Sha256, key.as_slice(), partial_ch_hash);
        to_array(mac.as_slice())
    }
}

} // verus!
