//! What a server makes of a ClientHello: the suite, the group and the share, and
//! what else the client offers.

use vstd::prelude::*;

use crate::codec::{bytes_eq, get_vec8, to_vec};
use crate::crypto::kx::{group_id, KexGroup};
use crate::events_view;
use crate::extension::{
    extensions_view, find_extension, lemma_find_extension, Extension, ExtensionType, ExtensionView,
};
use crate::handshake::{ClientHello, ClientHelloView, TLS_1_3};
use crate::proto::{
    alpn_list, client_shares, selected_share, u16_vec16, u16_vec8, Alpn, CertType, KeyShare,
    SignatureAlgorithms, SupportedGroups, SupportedVersions, CERT_TYPE_RAW_PUBLIC_KEY, CERT_TYPE_X509,
};
use crate::psk::{byte_strings, whole};
use crate::record::{suite_id, CipherSuite};
use crate::{Error, Event, EventView};

verus! {

/// The first suite, in the server's order, that a client offers.
pub open spec fn chosen_suite(offered: Seq<u16>) -> Option<CipherSuite> {
    if offered.contains(suite_id(CipherSuite::Aes128GcmSha256)) {
        Some(CipherSuite::Aes128GcmSha256)
    } else if offered.contains(suite_id(CipherSuite::ChaCha20Poly1305Sha256)) {
        Some(CipherSuite::ChaCha20Poly1305Sha256)
    } else if offered.contains(suite_id(CipherSuite::Aes256GcmSha384)) {
        Some(CipherSuite::Aes256GcmSha384)
    } else {
        None
    }
}

/// The first group, in the server's order, that a client supports.
pub open spec fn chosen_group(offered: Seq<u16>) -> Option<KexGroup> {
    if offered.contains(group_id(KexGroup::X25519)) {
        Some(KexGroup::X25519)
    } else if offered.contains(group_id(KexGroup::Secp256r1)) {
        Some(KexGroup::Secp256r1)
    } else if offered.contains(group_id(KexGroup::X25519Mlkem768)) {
        Some(KexGroup::X25519Mlkem768)
    } else {
        None
    }
}

/// Whether a client offers TLS 1.3.
pub open spec fn version_verdict(exts: Seq<ExtensionView>) -> Result<(), Error> {
    match find_extension(exts, ExtensionType::SUPPORTED_VERSIONS) {
        None => Err(Error::MissingExtension),
        Some(data) => match u16_vec8(data) {
            Err(_) => Err(Error::Decode),
            Ok(l) => if l.contains(TLS_1_3) {
                Ok(())
            } else {
                Err(Error::BadVersion)
            },
        },
    }
}

/// The group that a client without a usable share is asked for.
pub open spec fn group_verdict(exts: Seq<ExtensionView>) -> Result<KexGroup, Error> {
    match find_extension(exts, ExtensionType::SUPPORTED_GROUPS) {
        None => Err(Error::MissingExtension),
        Some(data) => match u16_vec16(data) {
            Err(_) => Err(Error::Decode),
            Ok(l) => match chosen_group(l) {
                None => Err(Error::UnsupportedGroup),
                Some(g) => Ok(g),
            },
        },
    }
}

/// Whether a client accepts signatures under a scheme.
pub open spec fn scheme_verdict(exts: Seq<ExtensionView>, scheme: u16) -> Result<(), Error> {
    match find_extension(exts, ExtensionType::SIGNATURE_ALGORITHMS) {
        None => Err(Error::MissingExtension),
        Some(data) => match u16_vec16(data) {
            Err(_) => Err(Error::Decode),
            Ok(l) => if l.contains(scheme) {
                Ok(())
            } else {
                Err(Error::UnsupportedSigScheme)
            },
        },
    }
}

/// The share that the server goes on with, where the client sent one for a group
/// that it knows.
pub open spec fn share_verdict(exts: Seq<ExtensionView>) -> Result<Option<(KexGroup, Seq<u8>)>, Error> {
    match find_extension(exts, ExtensionType::KEY_SHARE) {
        None => Ok(None),
        Some(data) => match client_shares(data) {
            Err(_) => Err(Error::Decode),
            Ok(l) => Ok(selected_share(l, KexGroup::SUPPORTED@)),
        },
    }
}

/// What a ClientHello comes down to, once a suite is chosen: the group to ask for
/// and the share to go on with.
pub open spec fn hello_terms(ch: ClientHelloView, scheme: u16) -> Result<
    (KexGroup, Option<(KexGroup, Seq<u8>)>),
    Error,
> {
    if ch.legacy_compression_methods != seq![0u8] {
        Err(Error::IllegalParameter)
    } else if ch.legacy_session_id.len() > 32 {
        Err(Error::Decode)
    } else {
        match version_verdict(ch.extensions) {
            Err(e) => Err(e),
            Ok(()) => match group_verdict(ch.extensions) {
                Err(e) => Err(e),
                Ok(group) => match scheme_verdict(ch.extensions, scheme) {
                    Err(e) => Err(e),
                    Ok(()) => match share_verdict(ch.extensions) {
                        Err(e) => Err(e),
                        Ok(share) => Ok((group, share)),
                    },
                },
            },
        }
    }
}

/// The first extension of type `ty`.
pub(crate) fn extension_data<'a>(list: &'a Vec<Extension>, ty: u16) -> (r: Option<&'a [u8]>)
    ensures
        match find_extension(extensions_view(list@), ty) {
            Some(d) => r matches Some(s) && s@ == d,
            None => r is None,
        },
{
    let ghost l = extensions_view(list@);
    let mut i: usize = 0;
    while i < list.len()
        invariant
            i <= list.len(),
            l == extensions_view(list@),
            forall|j: int| 0 <= j < i ==> (#[trigger] l[j]).0 != ty,
        decreases list.len() - i,
    {
        assert(l[i as int] == list@[i as int]@);
        if list[i].ty == ty {
            proof {
                lemma_find_extension(l, ty, i as int);
            }
            return Some(list[i].data.as_slice());
        }
        i = i + 1;
    }
    proof {
        lemma_find_extension(l, ty, i as int);
    }
    None
}

/// Whether a list of code points holds one.
pub(crate) fn has_u16(list: &[u16], v: u16) -> (r: bool)
    ensures
        r == list@.contains(v),
{
    let mut i: usize = 0;
    while i < list.len()
        invariant
            i <= list.len(),
            forall|j: int| 0 <= j < i ==> list@[j] != v,
        decreases list.len() - i,
    {
        if list[i] == v {
            assert(list@[i as int] == v);
            return true;
        }
        i = i + 1;
    }
    false
}

/// Whether a list of bytes holds one.
pub(crate) fn has_u8(list: &[u8], v: u8) -> (r: bool)
    ensures
        r == list@.contains(v),
{
    let mut i: usize = 0;
    while i < list.len()
        invariant
            i <= list.len(),
            forall|j: int| 0 <= j < i ==> list@[j] != v,
        decreases list.len() - i,
    {
        if list[i] == v {
            assert(list@[i as int] == v);
            return true;
        }
        i = i + 1;
    }
    false
}

/// The first suite, in the server's order, that a client offers.
pub fn select_suite(offered: &[u16]) -> (r: Option<CipherSuite>)
    ensures
        r == chosen_suite(offered@),
{
    if has_u16(offered, CipherSuite::Aes128GcmSha256.to_u16()) {
        Some(CipherSuite::Aes128GcmSha256)
    } else if has_u16(offered, CipherSuite::ChaCha20Poly1305Sha256.to_u16()) {
        Some(CipherSuite::ChaCha20Poly1305Sha256)
    } else if has_u16(offered, CipherSuite::Aes256GcmSha384.to_u16()) {
        Some(CipherSuite::Aes256GcmSha384)
    } else {
        None
    }
}

/// The first group, in the server's order, that a client supports.
pub fn select_group(offered: &[u16]) -> (r: Option<KexGroup>)
    ensures
        r == chosen_group(offered@),
{
    if has_u16(offered, KexGroup::X25519.to_u16()) {
        Some(KexGroup::X25519)
    } else if has_u16(offered, KexGroup::Secp256r1.to_u16()) {
        Some(KexGroup::Secp256r1)
    } else if has_u16(offered, KexGroup::X25519Mlkem768.to_u16()) {
        Some(KexGroup::X25519Mlkem768)
    } else {
        None
    }
}

/// What a ClientHello comes down to, once a suite is chosen: the group to ask for
/// and the share to go on with.
pub fn read_terms(ch: &ClientHello, scheme: u16) -> (r: Result<
    (KexGroup, Option<(KexGroup, Vec<u8>)>),
    Error,
>)
    ensures
        match hello_terms(ch@, scheme) {
            Ok((g, None)) => r is Ok && r->Ok_0.0 == g && r->Ok_0.1 is None,
            Ok((g, Some((sg, pk)))) => r is Ok && r->Ok_0.0 == g && r->Ok_0.1 is Some
                && (r->Ok_0.1->0).0 == sg && (r->Ok_0.1->0).1@ == pk,
            Err(e) => r is Err && r->Err_0 == e,
        },
{
    let ghost exts = ch@.extensions;
    let none: [u8; 1] = [0];
    assert(none@ =~= seq![0u8]);
    if !bytes_eq(ch.legacy_compression_methods.as_slice(), &none) {
        return Err(Error::IllegalParameter);
    }
    if ch.legacy_session_id.len() > 32 {
        return Err(Error::Decode);
    }
    let sv = match extension_data(&ch.extensions, ExtensionType::SUPPORTED_VERSIONS) {
        Some(d) => d,
        None => return Err(Error::MissingExtension),
    };
    match SupportedVersions::client_decode(sv) {
        Err(_) => return Err(Error::Decode),
        Ok(l) => if !has_u16(l.as_slice(), TLS_1_3) {
            return Err(Error::BadVersion);
        },
    }
    assert(version_verdict(exts) == Ok::<(), Error>(()));
    let groups = match extension_data(&ch.extensions, ExtensionType::SUPPORTED_GROUPS) {
        Some(d) => d,
        None => return Err(Error::MissingExtension),
    };
    let group = match SupportedGroups::decode(groups) {
        Err(_) => return Err(Error::Decode),
        Ok(l) => match select_group(l.as_slice()) {
            Some(g) => g,
            None => return Err(Error::UnsupportedGroup),
        },
    };
    assert(group_verdict(exts) == Ok::<KexGroup, Error>(group));
    let sigs = match extension_data(&ch.extensions, ExtensionType::SIGNATURE_ALGORITHMS) {
        Some(d) => d,
        None => return Err(Error::MissingExtension),
    };
    match SignatureAlgorithms::decode(sigs) {
        Err(_) => return Err(Error::Decode),
        Ok(l) => if !has_u16(l.as_slice(), scheme) {
            return Err(Error::UnsupportedSigScheme);
        },
    }
    assert(scheme_verdict(exts, scheme) == Ok::<(), Error>(()));
    match extension_data(&ch.extensions, ExtensionType::KEY_SHARE) {
        None => Ok((group, None)),
        Some(d) => match KeyShare::select_client_entry(d, &KexGroup::SUPPORTED) {
            Err(_) => Err(Error::Decode),
            Ok(share) => Ok((group, share)),
        },
    }
}

/// What a client offers beside its shares, as far as a server has read it: the
/// protocol chosen for the connection, the certificate types, whether this is
/// QUIC, and what is handed on to the embedder.
#[verifier::ext_equal]
pub struct OffersView {
    pub alpn: Option<Seq<u8>>,
    pub server_types: Option<Seq<u8>>,
    pub client_types: Option<Seq<u8>>,
    pub quic: bool,
    pub events: Seq<EventView>,
}

/// The first of a server's protocols that a client offers.
pub open spec fn picked(own: Seq<Seq<u8>>, offered: Seq<Seq<u8>>) -> Option<Seq<u8>>
    decreases own.len(),
{
    if own.len() == 0 {
        None
    } else if offered.contains(own[0]) {
        Some(own[0])
    } else {
        picked(own.skip(1), offered)
    }
}

/// What is known of a client's offers after one more extension, and whether it is
/// refused.
pub open spec fn offer_read(own: Seq<Seq<u8>>, o: OffersView, e: ExtensionView) -> (
    OffersView,
    Option<Error>,
) {
    if e.0 == ExtensionType::QUIC_TRANSPORT_PARAMETERS {
        (
            OffersView {
                quic: true,
                events: o.events.push(EventView::PeerExtension { ty: e.0, data: e.1 }),
                ..o
            },
            None,
        )
    } else if e.0 == ExtensionType::APPLICATION_LAYER_PROTOCOL_NEGOTIATION && own.len() > 0 {
        match alpn_list(e.1) {
            Err(_) => (o, Some(Error::Decode)),
            Ok(offered) => (
                OffersView { alpn: picked(own, offered), ..o },
                if picked(own, offered) is None && offered.len() > 0 {
                    Some(Error::NoApplicationProtocol)
                } else {
                    None
                },
            ),
        }
    } else if e.0 == ExtensionType::SERVER_CERTIFICATE_TYPE {
        match whole(get_vec8(e.1)) {
            Err(_) => (o, Some(Error::Decode)),
            Ok(l) => (OffersView { server_types: Some(l), ..o }, None),
        }
    } else if e.0 == ExtensionType::CLIENT_CERTIFICATE_TYPE {
        match whole(get_vec8(e.1)) {
            Err(_) => (o, Some(Error::Decode)),
            Ok(l) => (OffersView { client_types: Some(l), ..o }, None),
        }
    } else {
        (o, None)
    }
}

/// What is known of a client's offers after a list of extensions, up to the first
/// that is refused.
pub open spec fn offers_read(own: Seq<Seq<u8>>, o: OffersView, exts: Seq<ExtensionView>) -> (
    OffersView,
    Option<Error>,
)
    decreases exts.len(),
{
    if exts.len() == 0 {
        (o, None)
    } else {
        let (next, e) = offer_read(own, o, exts[0]);
        if e is Some {
            (next, e)
        } else {
            offers_read(own, next, exts.skip(1))
        }
    }
}

/// What is known before any extension is read, where a protocol may have been
/// chosen before.
pub open spec fn no_offers(alpn: Option<Seq<u8>>) -> OffersView {
    OffersView { alpn, server_types: None, client_types: None, quic: false, events: Seq::empty() }
}

/// What a client offers beside its shares.
pub struct Offers {
    pub alpn: Option<Vec<u8>>,
    pub server_types: Option<Vec<u8>>,
    pub client_types: Option<Vec<u8>>,
    pub quic: bool,
    pub events: Vec<Event>,
}

/// The bytes of an optional buffer.
pub open spec fn bytes_of(b: Option<Vec<u8>>) -> Option<Seq<u8>> {
    match b {
        Some(v) => Some(v@),
        None => None,
    }
}

impl View for Offers {
    type V = OffersView;

    open spec fn view(&self) -> OffersView {
        OffersView {
            alpn: bytes_of(self.alpn),
            server_types: bytes_of(self.server_types),
            client_types: bytes_of(self.client_types),
            quic: self.quic,
            events: events_view(self.events@),
        }
    }
}

/// A copy of an optional buffer.
pub(crate) fn copied(b: &Option<Vec<u8>>) -> (r: Option<Vec<u8>>)
    ensures
        bytes_of(r) == bytes_of(*b),
{
    match b {
        Some(v) => Some(to_vec(v.as_slice())),
        None => None,
    }
}

/// Whether a list of byte strings holds one.
pub(crate) fn has_bytes(list: &Vec<Vec<u8>>, v: &[u8]) -> (r: bool)
    ensures
        r == byte_strings(list@).contains(v@),
{
    let ghost l = byte_strings(list@);
    let mut i: usize = 0;
    while i < list.len()
        invariant
            i <= list.len(),
            l == byte_strings(list@),
            forall|j: int| 0 <= j < i ==> l[j] != v@,
        decreases list.len() - i,
    {
        assert(l[i as int] == list@[i as int]@);
        if bytes_eq(list[i].as_slice(), v) {
            return true;
        }
        i = i + 1;
    }
    false
}

/// The first of a server's protocols that a client offers.
pub fn pick_protocol(own: &Vec<Vec<u8>>, offered: &Vec<Vec<u8>>) -> (r: Option<Vec<u8>>)
    ensures
        bytes_of(r) == picked(byte_strings(own@), byte_strings(offered@)),
{
    let ghost l = byte_strings(own@);
    let ghost o = byte_strings(offered@);
    let mut i: usize = 0;
    assert(l.skip(0) =~= l);
    while i < own.len()
        invariant
            i <= own.len(),
            l == byte_strings(own@),
            o == byte_strings(offered@),
            picked(l, o) == picked(l.skip(i as int), o),
        decreases own.len() - i,
    {
        assert(l.skip(i as int)[0] == own@[i as int]@);
        assert(l.skip(i as int).skip(1) =~= l.skip(i + 1));
        if has_bytes(offered, own[i].as_slice()) {
            return Some(to_vec(own[i].as_slice()));
        }
        i = i + 1;
    }
    None
}

impl Offers {
    /// Reads one extension.
    pub fn read_one(&mut self, own: &Vec<Vec<u8>>, e: &Extension) -> (r: Result<(), Error>)
        ensures
            (final(self)@, match r {
                Ok(()) => None,
                Err(e) => Some(e),
            }) == offer_read(byte_strings(own@), old(self)@, e@),
    {
        let ghost before = self@;
        if e.ty == ExtensionType::QUIC_TRANSPORT_PARAMETERS {
            self.quic = true;
            let event = Event::PeerExtension { ty: e.ty, data: to_vec(e.data.as_slice()) };
            let ghost old_events = self.events@;
            self.events.push(event);
            assert(events_view(self.events@) =~= events_view(old_events).push(event@));
            Ok(())
        } else if e.ty == ExtensionType::APPLICATION_LAYER_PROTOCOL_NEGOTIATION && own.len() > 0 {
            match Alpn::decode(e.data.as_slice()) {
                Err(_) => Err(Error::Decode),
                Ok(offered) => {
                    let choice = pick_protocol(own, &offered);
                    let refused = choice.is_none() && offered.len() > 0;
                    self.alpn = choice;
                    if refused {
                        Err(Error::NoApplicationProtocol)
                    } else {
                        Ok(())
                    }
                },
            }
        } else if e.ty == ExtensionType::SERVER_CERTIFICATE_TYPE {
            match CertType::decode_list(e.data.as_slice()) {
                Err(_) => Err(Error::Decode),
                Ok(l) => {
                    self.server_types = Some(l);
                    Ok(())
                },
            }
        } else if e.ty == ExtensionType::CLIENT_CERTIFICATE_TYPE {
            match CertType::decode_list(e.data.as_slice()) {
                Err(_) => Err(Error::Decode),
                Ok(l) => {
                    self.client_types = Some(l);
                    Ok(())
                },
            }
        } else {
            Ok(())
        }
    }

    /// Reads a client's extensions up to the first that is refused. A protocol that
    /// was chosen before stays unless another is chosen.
    pub fn read(own: &Vec<Vec<u8>>, chosen: &Option<Vec<u8>>, exts: &Vec<Extension>) -> (r: (
        Self,
        Option<Error>,
    ))
        ensures
            (r.0@, r.1) == offers_read(
                byte_strings(own@),
                no_offers(bytes_of(*chosen)),
                extensions_view(exts@),
            ),
    {
        let ghost p = byte_strings(own@);
        let ghost l = extensions_view(exts@);
        let ghost start = no_offers(bytes_of(*chosen));
        let mut o = Offers {
            alpn: copied(chosen),
            server_types: None,
            client_types: None,
            quic: false,
            events: Vec::new(),
        };
        assert(o@ =~= start);
        assert(l.skip(0) =~= l);
        let mut i: usize = 0;
        while i < exts.len()
            invariant
                i <= exts.len(),
                p == byte_strings(own@),
                l == extensions_view(exts@),
                start == no_offers(bytes_of(*chosen)),
                offers_read(p, start, l) == offers_read(p, o@, l.skip(i as int)),
            decreases exts.len() - i,
        {
            assert(l.skip(i as int)[0] == exts@[i as int]@);
            assert(l.skip(i as int).skip(1) =~= l.skip(i + 1));
            match o.read_one(own, &exts[i]) {
                Ok(()) => {},
                Err(e) => return (o, Some(e)),
            }
            i = i + 1;
        }
        (o, None)
    }
}

/// The certificate type that a client is asked for: its first preference that is
/// known, X.509 otherwise.
pub open spec fn client_cert_type(offered: Option<Seq<u8>>) -> u8
    decreases offered->0.len(),
{
    match offered {
        None => CERT_TYPE_X509,
        Some(l) => if l.len() == 0 {
            CERT_TYPE_X509
        } else if l[0] == CERT_TYPE_X509 || l[0] == CERT_TYPE_RAW_PUBLIC_KEY {
            l[0]
        } else {
            client_cert_type(Some(l.skip(1)))
        },
    }
}

/// The certificate type that a client is asked for.
pub fn choose_client_cert_type(offered: &Option<Vec<u8>>) -> (r: u8)
    ensures
        r == client_cert_type(bytes_of(*offered)),
{
    match offered {
        None => CERT_TYPE_X509,
        Some(list) => {
            let ghost l = list@;
            assert(l.skip(0) =~= l);
            let mut i: usize = 0;
            while i < list.len()
                invariant
                    i <= list.len(),
                    l == list@,
                    bytes_of(*offered) == Some(l),
                    client_cert_type(Some(l)) == client_cert_type(Some(l.skip(i as int))),
                decreases list.len() - i,
            {
                assert(l.skip(i as int)[0] == l[i as int]);
                assert(l.skip(i as int).skip(1) =~= l.skip(i + 1));
                if list[i] == CERT_TYPE_X509 || list[i] == CERT_TYPE_RAW_PUBLIC_KEY {
                    return list[i];
                }
                i = i + 1;
            }
            CERT_TYPE_X509
        },
    }
}

/// A protocol that the server chose is one of its own that the client offered.
pub proof fn law_protocol_is_common(own: Seq<Seq<u8>>, offered: Seq<Seq<u8>>)
    ensures
        picked(own, offered) matches Some(p) ==> own.contains(p) && offered.contains(p),
        picked(own, offered) is None ==> forall|p: Seq<u8>| own.contains(p) ==> !offered.contains(p),
    decreases own.len(),
{
    if own.len() > 0 {
        let t = own.skip(1);
        law_protocol_is_common(t, offered);
        assert(own.contains(own[0]));
        assert forall|p: Seq<u8>| own.contains(p) implies p == own[0] || t.contains(p) by {
            let i = choose|i: int| 0 <= i < own.len() && own[i] == p;
            if i > 0 {
                assert(t[i - 1] == p);
            }
        }
        assert forall|p: Seq<u8>| t.contains(p) implies own.contains(p) by {
            let i = choose|i: int| 0 <= i < t.len() && t[i] == p;
            assert(own[i + 1] == p);
        }
    }
}

/// The suite that a server chooses is one that the client offered, and one is
/// chosen where the client offers any that the server knows.
pub proof fn law_suite_is_common(offered: Seq<u16>, s: CipherSuite)
    ensures
        chosen_suite(offered) == Some(s) ==> offered.contains(suite_id(s)),
        offered.contains(suite_id(s)) ==> chosen_suite(offered) is Some,
{
}

} // verus!
