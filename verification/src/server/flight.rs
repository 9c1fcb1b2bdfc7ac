//! The messages that a server sends.

use vstd::prelude::*;

use crate::codec::{be16, be32, lemma_put_all_push, put_all, put_u32, to_vec, vec16, MAX_U24};
use crate::crypto::kx::{group_id, KexGroup};
use crate::extension::{
    extension_enc, extensions_fit, extensions_view, Extension, ExtensionType, ExtensionView,
};
use crate::handshake::{
    entries_view, entry_enc, u16_enc, Certificate, CertificateEntry, CertificateEntryView,
    CertificateRequest, CertificateRequestView, CertificateVerify, CertificateVerifyView, CertificateView,
    EncryptedExtensions, Finished, Handshake, HandshakeView, KeyUpdate, NewSessionTicket,
    NewSessionTicketView, ServerHello, ServerHelloView, HELLO_RETRY_REQUEST_RANDOM, RANDOM_LEN, TLS_1_2,
    TLS_1_3,
};
use crate::proto::{
    alpn_bytes, alpn_fits, share_bytes, x509_schemes, Alpn, CertType, KeyShare, SignatureAlgorithms,
    SupportedVersions,
};
use crate::psk::{byte_strings, vec8_enc, SelectedIdentity};
use crate::record::{suite_id, CipherSuite};
use crate::server::hello::{Offers, OffersView};
use crate::server::resumption::TICKET_LIFETIME_SECS;
use crate::Error;

verus! {

/// max_early_data_size advertised in NewSessionTicket when 0-RTT is accepted.
pub const MAX_EARLY_DATA_SIZE: u32 = 16384;

/// The longest transport parameters that an EncryptedExtensions message can hold,
/// which has room for 65535 bytes of extensions, each with 4 bytes in front.
pub const MAX_TRANSPORT_PARAMS_LEN: usize = 65531;

/// How long an encoded list gets with one more extension.
pub proof fn lemma_extension_pushed(l: Seq<ExtensionView>, e: ExtensionView)
    ensures
        put_all(extension_enc(), l.push(e)).len() == put_all(extension_enc(), l).len() + 4 + e.1.len(),
        extensions_fit(l) && put_all(extension_enc(), l).len() + 4 + e.1.len() <= 0xffff ==> extensions_fit(
            l.push(e),
        ),
{
    lemma_put_all_push(extension_enc(), l, e);
    let n = l.push(e);
    if extensions_fit(l) && put_all(extension_enc(), l).len() + 4 + e.1.len() <= 0xffff {
        assert forall|i: int| 0 <= i < n.len() implies (#[trigger] n[i]).1.len() <= 0xffff by {
            if i < l.len() {
                assert(n[i] == l[i]);
            }
        }
    }
}

/// Appends an extension to a list.
fn append(list: &mut Vec<Extension>, ty: u16, data: Vec<u8>)
    ensures
        extensions_view(final(list)@) == extensions_view(old(list)@).push((ty, data@)),
        put_all(extension_enc(), extensions_view(final(list)@)).len() == put_all(
            extension_enc(),
            extensions_view(old(list)@),
        ).len() + 4 + data@.len(),
        extensions_fit(extensions_view(old(list)@)) && put_all(
            extension_enc(),
            extensions_view(old(list)@),
        ).len() + 4 + data@.len() <= 0xffff ==> extensions_fit(extensions_view(final(list)@)),
{
    proof {
        lemma_extension_pushed(extensions_view(list@), (ty, data@));
    }
    let ghost before = extensions_view(list@);
    list.push(Extension::new(ty, data));
    assert(extensions_view(list@) =~= before.push((ty, data@)));
}

/// An empty list of extensions.
fn no_extensions() -> (r: Vec<Extension>)
    ensures
        extensions_view(r@) == Seq::<ExtensionView>::empty(),
        extensions_fit(extensions_view(r@)),
        put_all(extension_enc(), extensions_view(r@)).len() == 0,
{
    let r: Vec<Extension> = Vec::new();
    assert(extensions_view(r@) =~= Seq::empty());
    r
}

/// The wire form of a message.
fn encoded(m: Handshake) -> (r: Vec<u8>)
    requires
        m@.fits(),
    ensures
        r@ == m@.bytes(),
        r@.len() <= MAX_U24 + 4,
{
    let mut out: Vec<u8> = Vec::new();
    m.encode(&mut out);
    assert(out@ =~= m@.bytes());
    out
}

/// A ServerHello that goes on with a client's share.
pub open spec fn server_hello(
    random: Seq<u8>,
    session_id: Seq<u8>,
    suite: CipherSuite,
    group: KexGroup,
    share: Seq<u8>,
    resumed: bool,
) -> HandshakeView {
    let exts = seq![
        (ExtensionType::SUPPORTED_VERSIONS, be16(TLS_1_3)),
        (ExtensionType::KEY_SHARE, share_bytes(group, share)),
    ];
    HandshakeView::ServerHello(
        ServerHelloView {
            legacy_version: TLS_1_2,
            random,
            legacy_session_id_echo: session_id,
            cipher_suite: suite_id(suite),
            legacy_compression_method: 0,
            extensions: if resumed {
                exts.push((ExtensionType::PRE_SHARED_KEY, be16(0)))
            } else {
                exts
            },
        },
    )
}

/// The bytes of a ServerHello that goes on with a client's share.
pub fn encode_server_hello(
    random: [u8; RANDOM_LEN],
    session_id: &[u8],
    suite: CipherSuite,
    group: KexGroup,
    share: &[u8],
    resumed: bool,
) -> (r: Vec<u8>)
    requires
        session_id@.len() <= 32,
        share@.len() <= 4096,
    ensures
        r@ == server_hello(random@, session_id@, suite, group, share@, resumed).bytes(),
        r@.len() <= MAX_U24 + 4,
{
    let mut exts = no_extensions();
    append(&mut exts, ExtensionType::SUPPORTED_VERSIONS, SupportedVersions::server_encode());
    append(&mut exts, ExtensionType::KEY_SHARE, KeyShare::server_encode(group, share));
    assert(extensions_view(exts@) =~= seq![
        (ExtensionType::SUPPORTED_VERSIONS, be16(TLS_1_3)),
        (ExtensionType::KEY_SHARE, share_bytes(group, share@)),
    ]);
    if resumed {
        append(&mut exts, ExtensionType::PRE_SHARED_KEY, SelectedIdentity::encode(0));
    }
    let m = Handshake::ServerHello(
        ServerHello {
            legacy_version: TLS_1_2,
            random,
            legacy_session_id_echo: to_vec(session_id),
            cipher_suite: suite.to_u16(),
            legacy_compression_method: 0,
            extensions: exts,
        },
    );
    assert(m@ == server_hello(random@, session_id@, suite, group, share@, resumed));
    encoded(m)
}

/// A HelloRetryRequest, which asks for a share in `group`.
pub open spec fn retry_request(session_id: Seq<u8>, suite: CipherSuite, group: KexGroup) -> HandshakeView {
    HandshakeView::ServerHello(
        ServerHelloView {
            legacy_version: TLS_1_2,
            random: HELLO_RETRY_REQUEST_RANDOM@,
            legacy_session_id_echo: session_id,
            cipher_suite: suite_id(suite),
            legacy_compression_method: 0,
            extensions: seq![
                (ExtensionType::SUPPORTED_VERSIONS, be16(TLS_1_3)),
                (ExtensionType::KEY_SHARE, be16(group_id(group))),
            ],
        },
    )
}

/// The bytes of a HelloRetryRequest.
pub fn encode_retry_request(session_id: &[u8], suite: CipherSuite, group: KexGroup) -> (r: Vec<u8>)
    requires
        session_id@.len() <= 32,
    ensures
        r@ == retry_request(session_id@, suite, group).bytes(),
        r@.len() <= MAX_U24 + 4,
{
    let mut exts = no_extensions();
    append(&mut exts, ExtensionType::SUPPORTED_VERSIONS, SupportedVersions::server_encode());
    append(&mut exts, ExtensionType::KEY_SHARE, KeyShare::hrr_encode(group));
    assert(extensions_view(exts@) =~= seq![
        (ExtensionType::SUPPORTED_VERSIONS, be16(TLS_1_3)),
        (ExtensionType::KEY_SHARE, be16(group_id(group))),
    ]);
    let m = Handshake::ServerHello(
        ServerHello {
            legacy_version: TLS_1_2,
            random: HELLO_RETRY_REQUEST_RANDOM,
            legacy_session_id_echo: to_vec(session_id),
            cipher_suite: suite.to_u16(),
            legacy_compression_method: 0,
            extensions: exts,
        },
    );
    assert(m@ == retry_request(session_id@, suite, group));
    encoded(m)
}

/// One optional extension.
pub open spec fn optional(present: bool, ty: u16, data: Seq<u8>) -> Seq<ExtensionView> {
    if present {
        seq![(ty, data)]
    } else {
        Seq::empty()
    }
}

/// What a server answers to a client's offers. Nothing is sent that the client did
/// not offer first.
pub open spec fn answers(
    server_type: u8,
    client_type: u8,
    o: OffersView,
    params: Seq<u8>,
    early: bool,
) -> Seq<ExtensionView> {
    optional(o.server_types is Some, ExtensionType::SERVER_CERTIFICATE_TYPE, seq![server_type])
        + optional(o.client_types is Some, ExtensionType::CLIENT_CERTIFICATE_TYPE, seq![client_type])
        + optional(o.quic, ExtensionType::QUIC_TRANSPORT_PARAMETERS, params) + optional(
        o.alpn is Some,
        ExtensionType::APPLICATION_LAYER_PROTOCOL_NEGOTIATION,
        alpn_bytes(seq![o.alpn->0]),
    ) + optional(early, ExtensionType::EARLY_DATA, Seq::empty())
}

/// How many bytes an optional extension takes.
pub open spec fn optional_len(present: bool, n: nat) -> nat {
    if present {
        4 + n
    } else {
        0
    }
}

/// Appends an extension to a list where it is wanted.
fn append_if(list: &mut Vec<Extension>, present: bool, ty: u16, data: Vec<u8>)
    ensures
        extensions_view(final(list)@) == extensions_view(old(list)@) + optional(present, ty, data@),
        extensions_len(extensions_view(final(list)@)) == extensions_len(extensions_view(old(list)@))
            + optional_len(present, data@.len()),
        extensions_fit(extensions_view(old(list)@)) && extensions_len(extensions_view(final(list)@)) <= 0xffff
            ==> extensions_fit(extensions_view(final(list)@)),
{
    let ghost before = extensions_view(list@);
    let ghost d = data@;
    if present {
        append(list, ty, data);
    }
    assert(extensions_view(list@) =~= before + optional(present, ty, d));
}

/// How many bytes a list of extensions takes without its length prefix.
pub open spec fn extensions_len(l: Seq<ExtensionView>) -> nat {
    put_all(extension_enc(), l).len()
}

/// The answers that come before the protocol, and how many bytes they take.
fn first_answers(server_type: u8, client_type: u8, o: &Offers, params: &[u8]) -> (r: (Vec<Extension>, usize))
    requires
        params@.len() <= MAX_TRANSPORT_PARAMS_LEN,
    ensures
        extensions_view(r.0@) == optional(
            o@.server_types is Some,
            ExtensionType::SERVER_CERTIFICATE_TYPE,
            seq![server_type],
        ) + optional(
            o@.client_types is Some,
            ExtensionType::CLIENT_CERTIFICATE_TYPE,
            seq![client_type],
        ) + optional(o@.quic, ExtensionType::QUIC_TRANSPORT_PARAMETERS, params@),
        r.1 == extensions_len(extensions_view(r.0@)),
        r.1 <= 14 + params@.len(),
        r.1 <= 0xffff ==> extensions_fit(extensions_view(r.0@)),
{
    let mut exts = no_extensions();
    let mut total: usize = 0;
    let has_server: bool = o.server_types.is_some();
    let has_client: bool = o.client_types.is_some();
    append_if(
        &mut exts,
        has_server,
        ExtensionType::SERVER_CERTIFICATE_TYPE,
        CertType::encode_single(server_type),
    );
    if has_server {
        total = total + 5;
    }
    append_if(
        &mut exts,
        has_client,
        ExtensionType::CLIENT_CERTIFICATE_TYPE,
        CertType::encode_single(client_type),
    );
    if has_client {
        total = total + 5;
    }
    append_if(&mut exts, o.quic, ExtensionType::QUIC_TRANSPORT_PARAMETERS, to_vec(params));
    if o.quic {
        total = total + 4 + params.len();
    }
    assert(extensions_view(exts@) =~= optional(
        has_server,
        ExtensionType::SERVER_CERTIFICATE_TYPE,
        seq![server_type],
    ) + optional(has_client, ExtensionType::CLIENT_CERTIFICATE_TYPE, seq![client_type]) + optional(
        o.quic,
        ExtensionType::QUIC_TRANSPORT_PARAMETERS,
        params@,
    ));
    (exts, total)
}

/// The extension that names a protocol. One that does not fit its length prefix is
/// refused.
fn protocol_answer(p: &[u8]) -> (r: Result<Vec<u8>, Error>)
    ensures
        p@.len() > 0xff ==> r is Err && r->Err_0 == Error::Encode,
        p@.len() <= 0xff ==> r is Ok && r->Ok_0@ == alpn_bytes(seq![p@]) && r->Ok_0@.len() == p@.len() + 3,
{
    let one: Vec<Vec<u8>> = vec![to_vec(p)];
    assert(byte_strings(one@) =~= seq![p@]);
    proof {
        lemma_one_protocol(p@);
    }
    match Alpn::encode(one.as_slice()) {
        Err(_) => Err(Error::Encode),
        Ok(body) => Ok(body),
    }
}

/// The bytes of an EncryptedExtensions message with a server's answers. A protocol
/// that does not fit its length prefix is refused, and so are answers that do not
/// fit theirs.
pub fn encode_answers(server_type: u8, client_type: u8, o: &Offers, params: &[u8], early: bool) -> (r: Result<
    Vec<u8>,
    Error,
>)
    requires
        params@.len() <= MAX_TRANSPORT_PARAMS_LEN,
    ensures
        match encodable(server_type, client_type, o@, params@, early) {
            true => r is Ok && r->Ok_0@ == HandshakeView::EncryptedExtensions(
                answers(server_type, client_type, o@, params@, early),
            ).bytes() && r->Ok_0@.len() <= MAX_U24 + 4,
            false => r is Err && r->Err_0 == Error::Encode,
        },
{
    let (mut exts, mut total) = first_answers(server_type, client_type, o, params);
    let ghost before = extensions_view(exts@);
    match &o.alpn {
        Some(p) => {
            let body = protocol_answer(p.as_slice())?;
            total = total + 4 + body.len();
            append_if(
                &mut exts,
                true,
                ExtensionType::APPLICATION_LAYER_PROTOCOL_NEGOTIATION,
                body,
            )
        },
        None => {
            assert(before + Seq::<ExtensionView>::empty() =~= before);
        },
    }
    let none: Vec<u8> = Vec::new();
    assert(none@ =~= Seq::<u8>::empty());
    append_if(&mut exts, early, ExtensionType::EARLY_DATA, none);
    if early {
        total = total + 4;
    }
    assert(extensions_view(exts@) == answers(server_type, client_type, o@, params@, early));
    assert(total == extensions_len(extensions_view(exts@)));
    if total > 0xffff {
        return Err(Error::Encode);
    }
    Ok(encoded(Handshake::EncryptedExtensions(EncryptedExtensions { extensions: exts })))
}

/// Whether a server's answers fit their length prefixes.
pub open spec fn encodable(server_type: u8, client_type: u8, o: OffersView, params: Seq<u8>, early: bool) -> bool {
    &&& o.alpn matches Some(p) ==> p.len() <= 0xff
    &&& extensions_len(answers(server_type, client_type, o, params, early)) <= 0xffff
}

/// A list of one protocol fits where the protocol does.
proof fn lemma_one_protocol(p: Seq<u8>)
    ensures
        alpn_fits(seq![p]) == (p.len() <= 0xff),
        alpn_bytes(seq![p]).len() == p.len() + 3,
{
    let l = seq![p];
    assert(l.skip(1) =~= Seq::empty());
    assert(put_all(vec8_enc(), l.skip(1)) =~= Seq::empty());
    assert(put_all(vec8_enc(), l) =~= vec8_enc()(p));
    assert(l[0] == p);
    if alpn_fits(l) {
        assert(l[0].len() <= 0xff);
    }
}

/// A request for a client's certificate.
pub open spec fn certificate_request() -> HandshakeView {
    HandshakeView::CertificateRequest(
        CertificateRequestView {
            certificate_request_context: Seq::empty(),
            extensions: seq![
                (
                    ExtensionType::SIGNATURE_ALGORITHMS,
                    vec16(put_all(u16_enc(), x509_schemes())),
                ),
            ],
        },
    )
}

/// The bytes of a request for a client's certificate.
pub fn encode_certificate_request() -> (r: Vec<u8>)
    ensures
        r@ == certificate_request().bytes(),
        r@.len() <= MAX_U24 + 4,
{
    let mut exts = no_extensions();
    append(&mut exts, ExtensionType::SIGNATURE_ALGORITHMS, SignatureAlgorithms::x509_encode());
    assert(extensions_view(exts@) =~= seq![
        (ExtensionType::SIGNATURE_ALGORITHMS, vec16(put_all(u16_enc(), x509_schemes()))),
    ]);
    let m = Handshake::CertificateRequest(
        CertificateRequest { certificate_request_context: Vec::new(), extensions: exts },
    );
    assert(m@->CertificateRequest_0.certificate_request_context =~= Seq::empty());
    assert(m@ == certificate_request());
    encoded(m)
}

/// A Certificate message's entries for a chain.
pub open spec fn chain_entries(chain: Seq<Seq<u8>>) -> Seq<CertificateEntryView> {
    chain.map_values(
        |c: Seq<u8>| CertificateEntryView { cert_data: c, extensions: Seq::empty() },
    )
}

/// A Certificate message that presents a chain.
pub open spec fn certificate_message(chain: Seq<Seq<u8>>) -> HandshakeView {
    HandshakeView::Certificate(
        CertificateView {
            certificate_request_context: Seq::empty(),
            certificate_list: chain_entries(chain),
        },
    )
}

/// How long the entries for a chain are.
pub open spec fn chain_len(chain: Seq<Seq<u8>>) -> nat
    decreases chain.len(),
{
    if chain.len() == 0 {
        0
    } else {
        chain_len(chain.drop_last()) + chain.last().len() + 5
    }
}

/// Whether a Certificate message can present a chain.
pub open spec fn chain_fits(chain: Seq<Seq<u8>>) -> bool {
    chain_len(chain) + 4 <= MAX_U24
}

/// A chain whose entries are short enough makes a message that fits.
pub proof fn lemma_chain_fits(chain: Seq<Seq<u8>>)
    ensures
        put_all(entry_enc(), chain_entries(chain)).len() == chain_len(chain),
        chain_fits(chain) ==> certificate_message(chain).fits(),
{
    lemma_chain_len(chain);
    let l = chain_entries(chain);
    if chain_fits(chain) {
        assert forall|i: int| 0 <= i < l.len() implies (#[trigger] l[i]).fits() by {
            lemma_chain_item(chain, i);
        }
    }
}

proof fn lemma_chain_len(chain: Seq<Seq<u8>>)
    ensures
        put_all(entry_enc(), chain_entries(chain)).len() == chain_len(chain),
    decreases chain.len(),
{
    if chain.len() > 0 {
        let rest = chain.drop_last();
        lemma_chain_len(rest);
        let e = CertificateEntryView { cert_data: chain.last(), extensions: Seq::empty() };
        assert(chain_entries(chain) =~= chain_entries(rest).push(e));
        lemma_put_all_push(entry_enc(), chain_entries(rest), e);
        assert(put_all(extension_enc(), Seq::<ExtensionView>::empty()).len() == 0);
        assert(entry_enc()(e).len() == chain.last().len() + 5);
    }
}

proof fn lemma_chain_item(chain: Seq<Seq<u8>>, i: int)
    requires
        0 <= i < chain.len(),
    ensures
        chain[i].len() <= chain_len(chain),
    decreases chain.len(),
{
    if i < chain.len() - 1 {
        lemma_chain_item(chain.drop_last(), i);
    }
}

/// Whether a Certificate message can present a chain.
pub fn check_chain(chain: &Vec<Vec<u8>>) -> (r: bool)
    ensures
        r == chain_fits(byte_strings(chain@)),
{
    let ghost c = byte_strings(chain@);
    let mut total: usize = 0;
    let mut i: usize = 0;
    assert(c.take(0) =~= Seq::empty());
    while i < chain.len()
        invariant
            i <= chain.len(),
            c == byte_strings(chain@),
            total == chain_len(c.take(i as int)),
            total <= MAX_U24,
        decreases chain.len() - i,
    {
        assert(c[i as int] == chain@[i as int]@);
        assert(c.take(i + 1).drop_last() =~= c.take(i as int));
        assert(c.take(i + 1).last() == c[i as int]);
        let n: usize = chain[i].len();
        if n > 0xff_ffff || total + n + 5 > 0xff_ffff {
            proof {
                lemma_chain_prefix(c, i + 1);
            }
            return false;
        }
        total = total + n + 5;
        i = i + 1;
    }
    assert(c.take(i as int) =~= c);
    total + 4 <= 0xff_ffff
}

proof fn lemma_chain_prefix(chain: Seq<Seq<u8>>, n: int)
    requires
        0 <= n <= chain.len(),
    ensures
        chain_len(chain.take(n)) <= chain_len(chain),
    decreases chain.len(),
{
    if n < chain.len() {
        lemma_chain_prefix(chain.drop_last(), n);
        assert(chain.drop_last().take(n) =~= chain.take(n));
    } else {
        assert(chain.take(n) =~= chain);
    }
}

/// The bytes of a Certificate message that presents a chain.
pub fn encode_certificate(chain: &Vec<Vec<u8>>) -> (r: Vec<u8>)
    requires
        chain_fits(byte_strings(chain@)),
    ensures
        r@ == certificate_message(byte_strings(chain@)).bytes(),
        r@.len() <= MAX_U24 + 4,
{
    let ghost c = byte_strings(chain@);
    let mut list: Vec<CertificateEntry> = Vec::new();
    let mut i: usize = 0;
    while i < chain.len()
        invariant
            i <= chain.len(),
            list.len() == i,
            c == byte_strings(chain@),
            forall|j: int| 0 <= j < i ==> (#[trigger] list@[j])@ == chain_entries(c)[j],
        decreases chain.len() - i,
    {
        let e = CertificateEntry { cert_data: to_vec(chain[i].as_slice()), extensions: Vec::new() };
        assert(c[i as int] == chain@[i as int]@);
        assert(e@.extensions =~= Seq::empty());
        list.push(e);
        i = i + 1;
    }
    assert(entries_view(list@) =~= chain_entries(c));
    let m = Handshake::Certificate(
        Certificate { certificate_request_context: Vec::new(), certificate_list: list },
    );
    assert(m@->Certificate_0.certificate_request_context =~= Seq::empty());
    assert(m@ == certificate_message(c));
    proof {
        lemma_chain_fits(c);
    }
    encoded(m)
}

/// A proof of possession of the presented key.
pub open spec fn certificate_verify(scheme: u16, sig: Seq<u8>) -> HandshakeView {
    HandshakeView::CertificateVerify(CertificateVerifyView { algorithm: scheme, signature: sig })
}

/// The bytes of a proof of possession.
pub fn encode_certificate_verify(scheme: u16, sig: Vec<u8>) -> (r: Vec<u8>)
    requires
        sig@.len() <= 0xffff,
    ensures
        r@ == certificate_verify(scheme, sig@).bytes(),
        r@.len() <= MAX_U24 + 4,
{
    encoded(Handshake::CertificateVerify(CertificateVerify { algorithm: scheme, signature: sig }))
}

/// The bytes of a Finished message.
pub fn encode_finished(verify_data: &[u8]) -> (r: Vec<u8>)
    requires
        verify_data@.len() <= 64,
    ensures
        r@ == HandshakeView::Finished(verify_data@).bytes(),
        r@.len() <= MAX_U24 + 4,
{
    encoded(Handshake::Finished(Finished { verify_data: to_vec(verify_data) }))
}

/// The bytes of a KeyUpdate message.
pub fn encode_key_update(request_update: u8) -> (r: Vec<u8>)
    ensures
        r@ == HandshakeView::KeyUpdate(request_update).bytes(),
{
    encoded(Handshake::KeyUpdate(KeyUpdate { request_update }))
}

/// A NewSessionTicket message; where early data is taken, it says how much.
pub open spec fn session_ticket(age_add: u32, nonce: Seq<u8>, ticket: Seq<u8>, early: bool) -> HandshakeView {
    HandshakeView::NewSessionTicket(
        NewSessionTicketView {
            ticket_lifetime: TICKET_LIFETIME_SECS,
            ticket_age_add: age_add,
            ticket_nonce: nonce,
            ticket,
            extensions: optional(early, ExtensionType::EARLY_DATA, be32(MAX_EARLY_DATA_SIZE)),
        },
    )
}

/// The bytes of a NewSessionTicket message.
pub fn encode_session_ticket(age_add: u32, nonce: &[u8], ticket: &[u8], early: bool) -> (r: Vec<u8>)
    requires
        nonce@.len() <= 0xff,
        ticket@.len() <= 0xffff,
    ensures
        r@ == session_ticket(age_add, nonce@, ticket@, early).bytes(),
{
    let mut body: Vec<u8> = Vec::new();
    put_u32(&mut body, MAX_EARLY_DATA_SIZE);
    assert(body@ =~= be32(MAX_EARLY_DATA_SIZE));
    let mut exts = no_extensions();
    append_if(&mut exts, early, ExtensionType::EARLY_DATA, body);
    assert(extensions_view(exts@) =~= optional(
        early,
        ExtensionType::EARLY_DATA,
        be32(MAX_EARLY_DATA_SIZE),
    ));
    let m = Handshake::NewSessionTicket(
        NewSessionTicket {
            ticket_lifetime: TICKET_LIFETIME_SECS,
            ticket_age_add: age_add,
            ticket_nonce: to_vec(nonce),
            ticket: to_vec(ticket),
            extensions: exts,
        },
    );
    assert(m@ == session_ticket(age_add, nonce@, ticket@, early));
    encoded(m)
}

} // verus!
