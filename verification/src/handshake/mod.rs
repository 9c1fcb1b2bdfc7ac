//! Handshake messages: their values, their wire form and their reassembly from
//! records.

use vstd::prelude::*;

use crate::codec::{
    be16, be32, get_all, get_bytes, get_u16, get_u32, get_u8, get_vec16, get_vec24, get_vec8,
    lemma_be16, lemma_be32, lemma_byte, lemma_get_all_ends, lemma_get_all_step, lemma_get_put_all, lemma_put_all_push,
    lemma_vec_round_trip, prepend, put_all, put_slice, put_u16, put_u32, put_u8, put_vec_u16, put_vec_u24,
    put_vec_u8, to_array, to_vec, vec16, vec24, vec8, DecodeError, Reader, MAX_U24,
};
use crate::extension::{
    extensions_bytes, extensions_fit, extensions_view, get_extensions, law_extensions_round_trip,
    Extension, ExtensionView,
};

pub mod layout;
pub mod reassemblers;

pub use reassemblers::HsReassembler;

verus! {

pub const RANDOM_LEN: usize = 32;

pub const TLS_1_3: u16 = 0x0304;

pub const TLS_1_2: u16 = 0x0303;

pub const MAX_CERTIFICATE_ENTRIES: usize = 16;

/// Bounds peer-pinned memory while reassembling a fragmented message.
pub const MAX_HANDSHAKE_SIZE: usize = 262144;

/// Anti-amplification cap on KeyUpdates accepted per record, bounding rekey
/// churn from KeyUpdates coalesced into a single record.
pub const MAX_KEY_UPDATES_PER_RECORD: u32 = 8;

/// Cap on KeyUpdates accepted without application data in between, bounding rekey
/// churn across records.
pub const MAX_KEY_UPDATES_WITHOUT_APP_DATA: u32 = 32;

/// The random value that says a ServerHello is a HelloRetryRequest: the SHA-256
/// of "HelloRetryRequest".
pub const HELLO_RETRY_REQUEST_RANDOM: [u8; 32] = [
    0xcf, 0x21, 0xad, 0x74, 0xe5, 0x9a, 0x61, 0x11, 0xbe, 0x1d, 0x8c, 0x02, 0x1e, 0x65, 0xb8, 0x91,
    0xc2, 0xa2, 0x11, 0x16, 0x7a, 0xbb, 0x8c, 0x5e, 0x07, 0x9e, 0x09, 0xe2, 0xc8, 0xa8, 0x33, 0x9c,
];

/// What a handshake message is.
#[derive(Debug, Clone, Copy, PartialEq, Eq, Structural)]
pub enum HandshakeType {
    ClientHello,
    ServerHello,
    NewSessionTicket,
    EndOfEarlyData,
    EncryptedExtensions,
    Certificate,
    CertificateRequest,
    CertificateVerify,
    Finished,
    KeyUpdate,
    MessageHash,
}

/// A message type's code point.
pub open spec fn type_id(t: HandshakeType) -> u8 {
    match t {
        HandshakeType::ClientHello => 1,
        HandshakeType::ServerHello => 2,
        HandshakeType::NewSessionTicket => 4,
        HandshakeType::EndOfEarlyData => 5,
        HandshakeType::EncryptedExtensions => 8,
        HandshakeType::Certificate => 11,
        HandshakeType::CertificateRequest => 13,
        HandshakeType::CertificateVerify => 15,
        HandshakeType::Finished => 20,
        HandshakeType::KeyUpdate => 24,
        HandshakeType::MessageHash => 254,
    }
}

/// The message type with code point `b`.
pub open spec fn handshake_type(b: u8) -> Option<HandshakeType> {
    if b == 1 {
        Some(HandshakeType::ClientHello)
    } else if b == 2 {
        Some(HandshakeType::ServerHello)
    } else if b == 4 {
        Some(HandshakeType::NewSessionTicket)
    } else if b == 5 {
        Some(HandshakeType::EndOfEarlyData)
    } else if b == 8 {
        Some(HandshakeType::EncryptedExtensions)
    } else if b == 11 {
        Some(HandshakeType::Certificate)
    } else if b == 13 {
        Some(HandshakeType::CertificateRequest)
    } else if b == 15 {
        Some(HandshakeType::CertificateVerify)
    } else if b == 20 {
        Some(HandshakeType::Finished)
    } else if b == 24 {
        Some(HandshakeType::KeyUpdate)
    } else if b == 254 {
        Some(HandshakeType::MessageHash)
    } else {
        None
    }
}

impl HandshakeType {
    /// The message type with code point `b`.
    pub fn from_u8(b: u8) -> (r: Result<Self, DecodeError>)
        ensures
            match handshake_type(b) {
                Some(t) => r == Ok::<Self, DecodeError>(t),
                None => r == Err::<Self, DecodeError>(DecodeError::InvalidEnum),
            },
    {
        match b {
            1 => Ok(HandshakeType::ClientHello),
            2 => Ok(HandshakeType::ServerHello),
            4 => Ok(HandshakeType::NewSessionTicket),
            5 => Ok(HandshakeType::EndOfEarlyData),
            8 => Ok(HandshakeType::EncryptedExtensions),
            11 => Ok(HandshakeType::Certificate),
            13 => Ok(HandshakeType::CertificateRequest),
            15 => Ok(HandshakeType::CertificateVerify),
            20 => Ok(HandshakeType::Finished),
            24 => Ok(HandshakeType::KeyUpdate),
            254 => Ok(HandshakeType::MessageHash),
            _ => Err(DecodeError::InvalidEnum),
        }
    }

    /// The code point.
    pub fn to_u8(self) -> (r: u8)
        ensures
            r == type_id(self),
            handshake_type(r) == Some(self),
    {
        match self {
            HandshakeType::ClientHello => 1,
            HandshakeType::ServerHello => 2,
            HandshakeType::NewSessionTicket => 4,
            HandshakeType::EndOfEarlyData => 5,
            HandshakeType::EncryptedExtensions => 8,
            HandshakeType::Certificate => 11,
            HandshakeType::CertificateRequest => 13,
            HandshakeType::CertificateVerify => 15,
            HandshakeType::Finished => 20,
            HandshakeType::KeyUpdate => 24,
            HandshakeType::MessageHash => 254,
        }
    }
}

/// The two-byte numbers at the front of `s`, as a list item.
pub open spec fn u16_item() -> spec_fn(Seq<u8>) -> Option<(u16, Seq<u8>)> {
    |s: Seq<u8>| get_u16(s)
}

/// The two bytes of a number, as a list item.
pub open spec fn u16_enc() -> spec_fn(u16) -> Seq<u8> {
    |v: u16| be16(v)
}

/// A list of two-byte numbers reads back from its bytes.
pub proof fn lemma_u16_list(l: Seq<u16>)
    ensures
        get_all(u16_item(), put_all(u16_enc(), l)) == Some(l),
        put_all(u16_enc(), l).len() == 2 * l.len(),
    decreases l.len(),
{
    let enc = u16_enc();
    let item = u16_item();
    assert forall|i: int, rest: Seq<u8>|
        #![trigger enc(l[i]) + rest]
        0 <= i < l.len() implies enc(l[i]).len() > 0 && item(enc(l[i]) + rest) == Some(
        (l[i], rest),
    ) by {
        lemma_be16(l[i], rest);
    }
    lemma_get_put_all(item, enc, l);
    if l.len() > 0 {
        lemma_u16_list(l.skip(1));
    }
}

/// Reads two-byte numbers up to the end of `r`.
pub(crate) fn read_u16_list<'a>(r: Reader<'a>) -> (res: Result<Vec<u16>, DecodeError>)
    ensures
        match get_all(u16_item(), r@) {
            Some(l) => res is Ok && res->Ok_0@ == l,
            None => res is Err && res->Err_0 == DecodeError::UnexpectedEnd,
        },
{
    let mut sub = r;
    let mut out: Vec<u16> = Vec::new();
    let ghost whole = sub@;
    proof {
        lemma_get_all_ends(u16_item(), whole, Seq::<u16>::empty());
        assert(out@ =~= Seq::empty());
    }
    while !sub.is_empty()
        invariant
            whole == r@,
            get_all(u16_item(), whole) == prepend(out@, get_all(u16_item(), sub@)),
        decreases sub@.len(),
    {
        proof {
            lemma_get_all_step(u16_item(), whole, out@, sub@);
        }
        let v: u16 = sub.u16()?;
        out.push(v);
    }
    proof {
        lemma_get_all_ends(u16_item(), sub@, out@);
    }
    Ok(out)
}

/// Appends two-byte numbers behind a two-byte length.
pub(crate) fn put_u16_list(list: &[u16], out: &mut Vec<u8>)
    requires
        2 * list.len() <= 0xffff,
    ensures
        final(out)@ == old(out)@ + vec16(put_all(u16_enc(), list@)),
{
    let mut body: Vec<u8> = Vec::new();
    let mut i: usize = 0;
    assert(list@.take(0) =~= Seq::empty());
    while i < list.len()
        invariant
            i <= list.len(),
            body@ == put_all(u16_enc(), list@.take(i as int)),
        decreases list.len() - i,
    {
        put_u16(&mut body, list[i]);
        proof {
            lemma_put_all_push(u16_enc(), list@.take(i as int), list@[i as int]);
            assert(list@.take(i as int).push(list@[i as int]) =~= list@.take(i + 1));
        }
        i = i + 1;
    }
    proof {
        assert(list@.take(i as int) =~= list@);
        lemma_u16_list(list@);
    }
    put_vec_u16(out, body.as_slice());
}

/// The client's first message.
#[derive(Debug, Clone, PartialEq, Eq)]
pub struct ClientHello {
    pub legacy_version: u16,
    pub random: [u8; RANDOM_LEN],
    pub legacy_session_id: Vec<u8>,
    pub cipher_suites: Vec<u16>,
    pub legacy_compression_methods: Vec<u8>,
    pub extensions: Vec<Extension>,
}

/// What a ClientHello says.
#[verifier::ext_equal]
pub struct ClientHelloView {
    pub legacy_version: u16,
    pub random: Seq<u8>,
    pub legacy_session_id: Seq<u8>,
    pub cipher_suites: Seq<u16>,
    pub legacy_compression_methods: Seq<u8>,
    pub extensions: Seq<ExtensionView>,
}

impl View for ClientHello {
    type V = ClientHelloView;

    open spec fn view(&self) -> ClientHelloView {
        ClientHelloView {
            legacy_version: self.legacy_version,
            random: self.random@,
            legacy_session_id: self.legacy_session_id@,
            cipher_suites: self.cipher_suites@,
            legacy_compression_methods: self.legacy_compression_methods@,
            extensions: extensions_view(self.extensions@),
        }
    }
}

impl ClientHelloView {
    /// Whether every vector fits its length prefix.
    pub open spec fn fits(self) -> bool {
        &&& self.random.len() == 32
        &&& self.legacy_session_id.len() <= 0xff
        &&& 2 * self.cipher_suites.len() <= 0xffff
        &&& self.legacy_compression_methods.len() <= 0xff
        &&& extensions_fit(self.extensions)
    }

    /// The wire form of the body.
    pub open spec fn body(self) -> Seq<u8> {
        be16(self.legacy_version) + self.random + vec8(self.legacy_session_id) + vec16(
            put_all(u16_enc(), self.cipher_suites),
        ) + vec8(self.legacy_compression_methods) + extensions_bytes(self.extensions)
    }
}

/// The ClientHello at the front of `s`, and what follows it.
#[verifier::opaque]
pub open spec fn get_client_hello(s: Seq<u8>) -> Option<(ClientHelloView, Seq<u8>)> {
    match get_u16(s) {
        None => None,
        Some((legacy_version, s1)) => match get_bytes(s1, 32) {
            None => None,
            Some((random, s2)) => match get_vec8(s2) {
                None => None,
                Some((legacy_session_id, s3)) => match get_vec16(s3) {
                    None => None,
                    Some((suites, s4)) => match get_all(u16_item(), suites) {
                        None => None,
                        Some(cipher_suites) => match get_vec8(s4) {
                            None => None,
                            Some((legacy_compression_methods, s5)) => match get_extensions(s5) {
                                None => None,
                                Some((extensions, rest)) => Some(
                                    (
                                        ClientHelloView {
                                            legacy_version,
                                            random,
                                            legacy_session_id,
                                            cipher_suites,
                                            legacy_compression_methods,
                                            extensions,
                                        },
                                        rest,
                                    ),
                                ),
                            },
                        },
                    },
                },
            },
        },
    }
}

proof fn lemma_client_hello_round_trip(m: ClientHelloView, rest: Seq<u8>)
    requires
        m.fits(),
    ensures
        get_client_hello(m.body() + rest) == Some((m, rest)),
{
    reveal(get_client_hello);
    let suites = put_all(u16_enc(), m.cipher_suites);
    let r5 = extensions_bytes(m.extensions) + rest;
    let r4 = vec8(m.legacy_compression_methods) + r5;
    let r3 = vec16(suites) + r4;
    let r2 = vec8(m.legacy_session_id) + r3;
    let r1 = m.random + r2;
    assert(m.body() + rest =~= be16(m.legacy_version) + r1);
    lemma_be16(m.legacy_version, r1);
    assert(r1.take(32) =~= m.random);
    assert(r1.skip(32) =~= r2);
    lemma_vec_round_trip(m.legacy_session_id, r3);
    lemma_u16_list(m.cipher_suites);
    lemma_vec_round_trip(suites, r4);
    lemma_vec_round_trip(m.legacy_compression_methods, r5);
    law_extensions_round_trip(m.extensions, rest);
}

impl ClientHello {
    /// Appends the wire form of the body.
    pub fn encode(&self, out: &mut Vec<u8>)
        requires
            self@.fits(),
        ensures
            final(out)@ == old(out)@ + self@.body(),
    {
        put_u16(out, self.legacy_version);
        put_slice(out, &self.random);
        put_vec_u8(out, self.legacy_session_id.as_slice());
        put_u16_list(self.cipher_suites.as_slice(), out);
        put_vec_u8(out, self.legacy_compression_methods.as_slice());
        Extension::encode_list(&self.extensions, out);
        assert(out@ =~= old(out)@ + self@.body());
    }

    /// Reads the body.
    pub fn decode<'a>(r: &mut Reader<'a>) -> (res: Result<Self, DecodeError>)
        ensures
            match get_client_hello(old(r)@) {
                Some((m, rest)) => res is Ok && res->Ok_0@ == m && final(r)@ == rest,
                None => res is Err && res->Err_0 == DecodeError::UnexpectedEnd && final(r)@ == old(r)@,
            },
    {
        proof {
            reveal(get_client_hello);
        }
        let mut p = *r;
        let legacy_version: u16 = p.u16()?;
        let random_bytes = p.take(RANDOM_LEN)?;
        let random: [u8; RANDOM_LEN] = to_array(random_bytes);
        let legacy_session_id = to_vec(p.vec_u8()?);
        let cs_sub = p.sub_u16()?;
        let cipher_suites = read_u16_list(cs_sub)?;
        let legacy_compression_methods = to_vec(p.vec_u8()?);
        let extensions = Extension::decode_list(&mut p)?;
        *r = p;
        Ok(
            Self {
                legacy_version,
                random,
                legacy_session_id,
                cipher_suites,
                legacy_compression_methods,
                extensions,
            },
        )
    }
}

/// The server's first message.
#[derive(Debug, Clone, PartialEq, Eq)]
pub struct ServerHello {
    pub legacy_version: u16,
    pub random: [u8; RANDOM_LEN],
    pub legacy_session_id_echo: Vec<u8>,
    pub cipher_suite: u16,
    pub legacy_compression_method: u8,
    pub extensions: Vec<Extension>,
}

/// What a ServerHello says.
#[verifier::ext_equal]
pub struct ServerHelloView {
    pub legacy_version: u16,
    pub random: Seq<u8>,
    pub legacy_session_id_echo: Seq<u8>,
    pub cipher_suite: u16,
    pub legacy_compression_method: u8,
    pub extensions: Seq<ExtensionView>,
}

impl View for ServerHello {
    type V = ServerHelloView;

    open spec fn view(&self) -> ServerHelloView {
        ServerHelloView {
            legacy_version: self.legacy_version,
            random: self.random@,
            legacy_session_id_echo: self.legacy_session_id_echo@,
            cipher_suite: self.cipher_suite,
            legacy_compression_method: self.legacy_compression_method,
            extensions: extensions_view(self.extensions@),
        }
    }
}

impl ServerHelloView {
    /// Whether every vector fits its length prefix.
    pub open spec fn fits(self) -> bool {
        &&& self.random.len() == 32
        &&& self.legacy_session_id_echo.len() <= 0xff
        &&& extensions_fit(self.extensions)
    }

    /// The wire form of the body.
    pub open spec fn body(self) -> Seq<u8> {
        be16(self.legacy_version) + self.random + vec8(self.legacy_session_id_echo) + be16(
            self.cipher_suite,
        ) + seq![self.legacy_compression_method] + extensions_bytes(self.extensions)
    }
}

/// The ServerHello at the front of `s`, and what follows it.
#[verifier::opaque]
pub open spec fn get_server_hello(s: Seq<u8>) -> Option<(ServerHelloView, Seq<u8>)> {
    match get_u16(s) {
        None => None,
        Some((legacy_version, s1)) => match get_bytes(s1, 32) {
            None => None,
            Some((random, s2)) => match get_vec8(s2) {
                None => None,
                Some((legacy_session_id_echo, s3)) => match get_u16(s3) {
                    None => None,
                    Some((cipher_suite, s4)) => match get_u8(s4) {
                        None => None,
                        Some((legacy_compression_method, s5)) => match get_extensions(s5) {
                            None => None,
                            Some((extensions, rest)) => Some(
                                (
                                    ServerHelloView {
                                        legacy_version,
                                        random,
                                        legacy_session_id_echo,
                                        cipher_suite,
                                        legacy_compression_method,
                                        extensions,
                                    },
                                    rest,
                                ),
                            ),
                        },
                    },
                },
            },
        },
    }
}

proof fn lemma_server_hello_round_trip(m: ServerHelloView, rest: Seq<u8>)
    requires
        m.fits(),
    ensures
        get_server_hello(m.body() + rest) == Some((m, rest)),
{
    reveal(get_server_hello);
    let r5 = extensions_bytes(m.extensions) + rest;
    let r4 = seq![m.legacy_compression_method] + r5;
    let r3 = be16(m.cipher_suite) + r4;
    let r2 = vec8(m.legacy_session_id_echo) + r3;
    let r1 = m.random + r2;
    assert(m.body() + rest =~= be16(m.legacy_version) + r1);
    lemma_be16(m.legacy_version, r1);
    assert(r1.take(32) =~= m.random);
    assert(r1.skip(32) =~= r2);
    lemma_vec_round_trip(m.legacy_session_id_echo, r3);
    lemma_be16(m.cipher_suite, r4);
    lemma_byte(m.legacy_compression_method, r5);
    law_extensions_round_trip(m.extensions, rest);
}

impl ServerHello {
    /// Appends the wire form of the body.
    pub fn encode(&self, out: &mut Vec<u8>)
        requires
            self@.fits(),
        ensures
            final(out)@ == old(out)@ + self@.body(),
    {
        put_u16(out, self.legacy_version);
        put_slice(out, &self.random);
        put_vec_u8(out, self.legacy_session_id_echo.as_slice());
        put_u16(out, self.cipher_suite);
        put_u8(out, self.legacy_compression_method);
        Extension::encode_list(&self.extensions, out);
        assert(out@ =~= old(out)@ + self@.body());
    }

    /// Reads the body.
    pub fn decode<'a>(r: &mut Reader<'a>) -> (res: Result<Self, DecodeError>)
        ensures
            match get_server_hello(old(r)@) {
                Some((m, rest)) => res is Ok && res->Ok_0@ == m && final(r)@ == rest,
                None => res is Err && res->Err_0 == DecodeError::UnexpectedEnd && final(r)@ == old(r)@,
            },
    {
        proof {
            reveal(get_server_hello);
        }
        let mut p = *r;
        let legacy_version: u16 = p.u16()?;
        let random_bytes = p.take(RANDOM_LEN)?;
        let random: [u8; RANDOM_LEN] = to_array(random_bytes);
        let legacy_session_id_echo = to_vec(p.vec_u8()?);
        let cipher_suite: u16 = p.u16()?;
        let legacy_compression_method: u8 = p.u8()?;
        let extensions = Extension::decode_list(&mut p)?;
        *r = p;
        Ok(
            Self {
                legacy_version,
                random,
                legacy_session_id_echo,
                cipher_suite,
                legacy_compression_method,
                extensions,
            },
        )
    }
}

/// The server's extensions that need not be in the clear.
#[derive(Debug, Clone, PartialEq, Eq)]
pub struct EncryptedExtensions {
    pub extensions: Vec<Extension>,
}

impl View for EncryptedExtensions {
    type V = Seq<ExtensionView>;

    open spec fn view(&self) -> Seq<ExtensionView> {
        extensions_view(self.extensions@)
    }
}

impl EncryptedExtensions {
    /// Appends the wire form of the body.
    pub fn encode(&self, out: &mut Vec<u8>)
        requires
            extensions_fit(self@),
        ensures
            final(out)@ == old(out)@ + extensions_bytes(self@),
    {
        Extension::encode_list(&self.extensions, out);
    }

    /// Reads the body.
    pub fn decode<'a>(r: &mut Reader<'a>) -> (res: Result<Self, DecodeError>)
        ensures
            match get_extensions(old(r)@) {
                Some((m, rest)) => res is Ok && res->Ok_0@ == m && final(r)@ == rest,
                None => res is Err && res->Err_0 == DecodeError::UnexpectedEnd && final(r)@ == old(r)@,
            },
    {
        let extensions = Extension::decode_list(r)?;
        Ok(Self { extensions })
    }
}

/// One certificate of a Certificate message.
#[derive(Debug, Clone, PartialEq, Eq)]
pub struct CertificateEntry {
    pub cert_data: Vec<u8>,
    pub extensions: Vec<Extension>,
}

/// What a certificate entry says.
#[verifier::ext_equal]
pub struct CertificateEntryView {
    pub cert_data: Seq<u8>,
    pub extensions: Seq<ExtensionView>,
}

impl View for CertificateEntry {
    type V = CertificateEntryView;

    open spec fn view(&self) -> CertificateEntryView {
        CertificateEntryView {
            cert_data: self.cert_data@,
            extensions: extensions_view(self.extensions@),
        }
    }
}

impl CertificateEntryView {
    /// Whether every vector fits its length prefix.
    pub open spec fn fits(self) -> bool {
        &&& self.cert_data.len() <= MAX_U24
        &&& extensions_fit(self.extensions)
    }

    /// The wire form.
    pub open spec fn body(self) -> Seq<u8> {
        vec24(self.cert_data) + extensions_bytes(self.extensions)
    }
}

/// The certificate entry at the front of `s`, and what follows it.
#[verifier::opaque]
pub open spec fn get_certificate_entry(s: Seq<u8>) -> Option<(CertificateEntryView, Seq<u8>)> {
    match get_vec24(s) {
        None => None,
        Some((cert_data, s1)) => match get_extensions(s1) {
            None => None,
            Some((extensions, rest)) => Some((CertificateEntryView { cert_data, extensions }, rest)),
        },
    }
}

proof fn lemma_certificate_entry_round_trip(m: CertificateEntryView, rest: Seq<u8>)
    requires
        m.fits(),
    ensures
        get_certificate_entry(m.body() + rest) == Some((m, rest)),
        m.body().len() > 0,
{
    reveal(get_certificate_entry);
    let r1 = extensions_bytes(m.extensions) + rest;
    assert(m.body() + rest =~= vec24(m.cert_data) + r1);
    lemma_vec_round_trip(m.cert_data, r1);
    law_extensions_round_trip(m.extensions, rest);
}

/// Reading an entry takes at least its length prefixes.
proof fn lemma_entry_consumes(s: Seq<u8>)
    ensures
        get_certificate_entry(s) matches Some((_, rest)) ==> rest.len() < s.len(),
{
    reveal(get_certificate_entry);
}

impl CertificateEntry {
    /// Appends the wire form.
    pub fn encode(&self, out: &mut Vec<u8>)
        requires
            self@.fits(),
        ensures
            final(out)@ == old(out)@ + self@.body(),
    {
        put_vec_u24(out, self.cert_data.as_slice());
        Extension::encode_list(&self.extensions, out);
        assert(out@ =~= old(out)@ + self@.body());
    }

    /// Reads one entry.
    pub fn decode<'a>(r: &mut Reader<'a>) -> (res: Result<Self, DecodeError>)
        ensures
            match get_certificate_entry(old(r)@) {
                Some((m, rest)) => res is Ok && res->Ok_0@ == m && final(r)@ == rest,
                None => res is Err && res->Err_0 == DecodeError::UnexpectedEnd && final(r)@ == old(r)@,
            },
    {
        proof {
            reveal(get_certificate_entry);
        }
        let mut p = *r;
        let cert_data = to_vec(p.vec_u24()?);
        let extensions = Extension::decode_list(&mut p)?;
        *r = p;
        Ok(Self { cert_data, extensions })
    }
}

/// A peer's certificates, its own first.
#[derive(Debug, Clone, PartialEq, Eq)]
pub struct Certificate {
    pub certificate_request_context: Vec<u8>,
    pub certificate_list: Vec<CertificateEntry>,
}

/// What a Certificate message says.
#[verifier::ext_equal]
pub struct CertificateView {
    pub certificate_request_context: Seq<u8>,
    pub certificate_list: Seq<CertificateEntryView>,
}

/// What a list of certificate entries says.
pub open spec fn entries_view(l: Seq<CertificateEntry>) -> Seq<CertificateEntryView> {
    l.map_values(|e: CertificateEntry| e@)
}

impl View for Certificate {
    type V = CertificateView;

    open spec fn view(&self) -> CertificateView {
        CertificateView {
            certificate_request_context: self.certificate_request_context@,
            certificate_list: entries_view(self.certificate_list@),
        }
    }
}

/// The wire form of an entry, as a list item.
pub open spec fn entry_enc() -> spec_fn(CertificateEntryView) -> Seq<u8> {
    |e: CertificateEntryView| e.body()
}

impl CertificateView {
    /// Whether every vector fits its length prefix.
    pub open spec fn fits(self) -> bool {
        &&& self.certificate_request_context.len() <= 0xff
        &&& forall|i: int|
            0 <= i < self.certificate_list.len() ==> (#[trigger] self.certificate_list[i]).fits()
        &&& put_all(entry_enc(), self.certificate_list).len() <= MAX_U24
    }

    /// The wire form of the body.
    pub open spec fn body(self) -> Seq<u8> {
        vec8(self.certificate_request_context) + vec24(put_all(entry_enc(), self.certificate_list))
    }
}

/// The entries that `s` holds, where `seen` came before them; no more than
/// sixteen are accepted.
pub open spec fn get_entries(s: Seq<u8>, seen: nat) -> Result<Seq<CertificateEntryView>, DecodeError>
    decreases s.len(),
{
    if s.len() == 0 {
        Ok(Seq::empty())
    } else if seen >= MAX_CERTIFICATE_ENTRIES {
        Err(DecodeError::TooManyCertificates)
    } else {
        match get_certificate_entry(s) {
            None => Err(DecodeError::UnexpectedEnd),
            Some((e, rest)) => if rest.len() < s.len() {
                match get_entries(rest, seen + 1) {
                    Ok(l) => Ok(seq![e] + l),
                    Err(err) => Err(err),
                }
            } else {
                Err(DecodeError::UnexpectedEnd)
            },
        }
    }
}

/// The Certificate message at the front of `s`, and what follows it.
#[verifier::opaque]
pub open spec fn get_certificate(s: Seq<u8>) -> Result<(CertificateView, Seq<u8>), DecodeError> {
    match get_vec8(s) {
        None => Err(DecodeError::UnexpectedEnd),
        Some((certificate_request_context, s1)) => match get_vec24(s1) {
            None => Err(DecodeError::UnexpectedEnd),
            Some((body, rest)) => match get_entries(body, 0) {
                Err(e) => Err(e),
                Ok(certificate_list) => Ok(
                    (CertificateView { certificate_request_context, certificate_list }, rest),
                ),
            },
        },
    }
}

proof fn lemma_entries_round_trip(l: Seq<CertificateEntryView>, seen: nat)
    requires
        seen + l.len() <= MAX_CERTIFICATE_ENTRIES,
        forall|i: int| 0 <= i < l.len() ==> (#[trigger] l[i]).fits(),
    ensures
        get_entries(put_all(entry_enc(), l), seen) == Ok::<Seq<CertificateEntryView>, DecodeError>(l),
    decreases l.len(),
{
    if l.len() == 0 {
        assert(l =~= Seq::empty());
    } else {
        let t = l.skip(1);
        assert forall|i: int| 0 <= i < t.len() implies (#[trigger] t[i]).fits() by {
            assert(t[i] == l[i + 1]);
        }
        lemma_entries_round_trip(t, seen + 1);
        lemma_certificate_entry_round_trip(l[0], put_all(entry_enc(), t));
        assert(put_all(entry_enc(), l) == l[0].body() + put_all(entry_enc(), t));
        assert(seq![l[0]] + t =~= l);
    }
}

proof fn lemma_certificate_round_trip(m: CertificateView, rest: Seq<u8>)
    requires
        m.fits(),
        m.certificate_list.len() <= MAX_CERTIFICATE_ENTRIES,
    ensures
        get_certificate(m.body() + rest) == Ok::<(CertificateView, Seq<u8>), DecodeError>((m, rest)),
{
    reveal(get_certificate);
    let list = put_all(entry_enc(), m.certificate_list);
    let r1 = vec24(list) + rest;
    assert(m.body() + rest =~= vec8(m.certificate_request_context) + r1);
    lemma_vec_round_trip(m.certificate_request_context, r1);
    lemma_vec_round_trip(list, rest);
    lemma_entries_round_trip(m.certificate_list, 0);
}

/// One more entry behind those already read.
proof fn lemma_entries_step(
    whole: Seq<u8>,
    acc: Seq<CertificateEntryView>,
    s: Seq<u8>,
    e: CertificateEntryView,
    rest: Seq<u8>,
)
    requires
        s.len() > 0,
        rest.len() < s.len(),
        acc.len() < MAX_CERTIFICATE_ENTRIES,
        get_certificate_entry(s) == Some((e, rest)),
        entries_behind(whole, acc, s),
    ensures
        entries_behind(whole, acc.push(e), rest),
{
    if let Ok(l) = get_entries(rest, acc.len() + 1) {
        assert(acc + (seq![e] + l) =~= acc.push(e) + l);
    }
}

/// Reading `whole` gives `acc` and then what reading `s` gives.
pub open spec fn entries_behind(whole: Seq<u8>, acc: Seq<CertificateEntryView>, s: Seq<u8>) -> bool {
    match get_entries(s, acc.len()) {
        Ok(l) => get_entries(whole, 0) == Ok::<Seq<CertificateEntryView>, DecodeError>(acc + l),
        Err(e) => get_entries(whole, 0) == Err::<Seq<CertificateEntryView>, DecodeError>(e),
    }
}

impl Certificate {
    /// Appends the wire form of the body.
    pub fn encode(&self, out: &mut Vec<u8>)
        requires
            self@.fits(),
        ensures
            final(out)@ == old(out)@ + self@.body(),
    {
        put_vec_u8(out, self.certificate_request_context.as_slice());
        let ghost l = entries_view(self.certificate_list@);
        let mut body: Vec<u8> = Vec::new();
        let mut i: usize = 0;
        assert(l.take(0) =~= Seq::empty());
        while i < self.certificate_list.len()
            invariant
                i <= self.certificate_list.len(),
                l == entries_view(self.certificate_list@),
                self@.fits(),
                body@ == put_all(entry_enc(), l.take(i as int)),
            decreases self.certificate_list.len() - i,
        {
            assert(self@.certificate_list[i as int] == self.certificate_list@[i as int]@);
            self.certificate_list[i].encode(&mut body);
            proof {
                lemma_put_all_push(entry_enc(), l.take(i as int), l[i as int]);
                assert(l.take(i as int).push(l[i as int]) =~= l.take(i + 1));
            }
            i = i + 1;
        }
        assert(l.take(i as int) =~= l);
        put_vec_u24(out, body.as_slice());
        assert(out@ =~= old(out)@ + self@.body());
    }

    /// Reads the body.
    pub fn decode<'a>(r: &mut Reader<'a>) -> (res: Result<Self, DecodeError>)
        ensures
            match get_certificate(old(r)@) {
                Ok((m, rest)) => res is Ok && res->Ok_0@ == m && final(r)@ == rest,
                Err(e) => res is Err && res->Err_0 == e && final(r)@ == old(r)@,
            },
    {
        proof {
            reveal(get_certificate);
        }
        let mut p = *r;
        let certificate_request_context = to_vec(p.vec_u8()?);
        let mut sub = p.sub_u24()?;
        let ghost whole = sub@;
        let mut certificate_list: Vec<CertificateEntry> = Vec::new();
        proof {
            assert(entries_view(certificate_list@) =~= Seq::empty());
            if let Ok(l) = get_entries(whole, 0) {
                assert(Seq::<CertificateEntryView>::empty() + l =~= l);
            }
        }
        while !sub.is_empty()
            invariant
                r@ == old(r)@,
                entries_behind(whole, entries_view(certificate_list@), sub@),
                match get_vec8(old(r)@) {
                    Some((c, s1)) => c == certificate_request_context@ && match get_vec24(s1) {
                        Some((body, rest)) => body == whole && p@ == rest,
                        None => false,
                    },
                    None => false,
                },
            decreases sub@.len(),
        {
            proof {
                reveal(get_certificate);
            }
            if certificate_list.len() >= MAX_CERTIFICATE_ENTRIES {
                return Err(DecodeError::TooManyCertificates);
            }
            let ghost before = certificate_list@;
            let ghost s = sub@;
            proof {
                lemma_entry_consumes(s);
            }
            let e = CertificateEntry::decode(&mut sub)?;
            certificate_list.push(e);
            proof {
                assert(entries_view(certificate_list@) =~= entries_view(before).push(e@));
                lemma_entries_step(whole, entries_view(before), s, e@, sub@);
            }
        }
        proof {
            let acc = entries_view(certificate_list@);
            assert(acc + Seq::<CertificateEntryView>::empty() =~= acc);
        }
        *r = p;
        Ok(Self { certificate_request_context, certificate_list })
    }
}

/// A server's wish to see the client's certificate.
#[derive(Debug, Clone, PartialEq, Eq)]
pub struct CertificateRequest {
    pub certificate_request_context: Vec<u8>,
    pub extensions: Vec<Extension>,
}

/// What a CertificateRequest says.
#[verifier::ext_equal]
pub struct CertificateRequestView {
    pub certificate_request_context: Seq<u8>,
    pub extensions: Seq<ExtensionView>,
}

impl View for CertificateRequest {
    type V = CertificateRequestView;

    open spec fn view(&self) -> CertificateRequestView {
        CertificateRequestView {
            certificate_request_context: self.certificate_request_context@,
            extensions: extensions_view(self.extensions@),
        }
    }
}

impl CertificateRequestView {
    /// Whether every vector fits its length prefix.
    pub open spec fn fits(self) -> bool {
        &&& self.certificate_request_context.len() <= 0xff
        &&& extensions_fit(self.extensions)
    }

    /// The wire form of the body.
    pub open spec fn body(self) -> Seq<u8> {
        vec8(self.certificate_request_context) + extensions_bytes(self.extensions)
    }
}

/// The CertificateRequest at the front of `s`, and what follows it.
#[verifier::opaque]
pub open spec fn get_certificate_request(s: Seq<u8>) -> Option<(CertificateRequestView, Seq<u8>)> {
    match get_vec8(s) {
        None => None,
        Some((certificate_request_context, s1)) => match get_extensions(s1) {
            None => None,
            Some((extensions, rest)) => Some(
                (CertificateRequestView { certificate_request_context, extensions }, rest),
            ),
        },
    }
}

proof fn lemma_certificate_request_round_trip(m: CertificateRequestView, rest: Seq<u8>)
    requires
        m.fits(),
    ensures
        get_certificate_request(m.body() + rest) == Some((m, rest)),
{
    reveal(get_certificate_request);
    let r1 = extensions_bytes(m.extensions) + rest;
    assert(m.body() + rest =~= vec8(m.certificate_request_context) + r1);
    lemma_vec_round_trip(m.certificate_request_context, r1);
    law_extensions_round_trip(m.extensions, rest);
}

impl CertificateRequest {
    /// Appends the wire form of the body.
    pub fn encode(&self, out: &mut Vec<u8>)
        requires
            self@.fits(),
        ensures
            final(out)@ == old(out)@ + self@.body(),
    {
        put_vec_u8(out, self.certificate_request_context.as_slice());
        Extension::encode_list(&self.extensions, out);
        assert(out@ =~= old(out)@ + self@.body());
    }

    /// Reads the body.
    pub fn decode<'a>(r: &mut Reader<'a>) -> (res: Result<Self, DecodeError>)
        ensures
            match get_certificate_request(old(r)@) {
                Some((m, rest)) => res is Ok && res->Ok_0@ == m && final(r)@ == rest,
                None => res is Err && res->Err_0 == DecodeError::UnexpectedEnd && final(r)@ == old(r)@,
            },
    {
        proof {
            reveal(get_certificate_request);
        }
        let mut p = *r;
        let certificate_request_context = to_vec(p.vec_u8()?);
        let extensions = Extension::decode_list(&mut p)?;
        *r = p;
        Ok(Self { certificate_request_context, extensions })
    }
}

/// A signature over the transcript, which proves possession of a key.
#[derive(Debug, Clone, PartialEq, Eq)]
pub struct CertificateVerify {
    pub algorithm: u16,
    pub signature: Vec<u8>,
}

/// What a CertificateVerify says.
#[verifier::ext_equal]
pub struct CertificateVerifyView {
    pub algorithm: u16,
    pub signature: Seq<u8>,
}

impl View for CertificateVerify {
    type V = CertificateVerifyView;

    open spec fn view(&self) -> CertificateVerifyView {
        CertificateVerifyView { algorithm: self.algorithm, signature: self.signature@ }
    }
}

impl CertificateVerifyView {
    /// Whether the signature fits its length prefix.
    pub open spec fn fits(self) -> bool {
        self.signature.len() <= 0xffff
    }

    /// The wire form of the body.
    pub open spec fn body(self) -> Seq<u8> {
        be16(self.algorithm) + vec16(self.signature)
    }
}

/// The CertificateVerify at the front of `s`, and what follows it.
#[verifier::opaque]
pub open spec fn get_certificate_verify(s: Seq<u8>) -> Option<(CertificateVerifyView, Seq<u8>)> {
    match get_u16(s) {
        None => None,
        Some((algorithm, s1)) => match get_vec16(s1) {
            None => None,
            Some((signature, rest)) => Some((CertificateVerifyView { algorithm, signature }, rest)),
        },
    }
}

proof fn lemma_certificate_verify_round_trip(m: CertificateVerifyView, rest: Seq<u8>)
    requires
        m.fits(),
    ensures
        get_certificate_verify(m.body() + rest) == Some((m, rest)),
{
    reveal(get_certificate_verify);
    let r1 = vec16(m.signature) + rest;
    assert(m.body() + rest =~= be16(m.algorithm) + r1);
    lemma_be16(m.algorithm, r1);
    lemma_vec_round_trip(m.signature, rest);
}

impl CertificateVerify {
    /// Appends the wire form of the body.
    pub fn encode(&self, out: &mut Vec<u8>)
        requires
            self@.fits(),
        ensures
            final(out)@ == old(out)@ + self@.body(),
    {
        put_u16(out, self.algorithm);
        put_vec_u16(out, self.signature.as_slice());
        assert(out@ =~= old(out)@ + self@.body());
    }

    /// Reads the body.
    pub fn decode<'a>(r: &mut Reader<'a>) -> (res: Result<Self, DecodeError>)
        ensures
            match get_certificate_verify(old(r)@) {
                Some((m, rest)) => res is Ok && res->Ok_0@ == m && final(r)@ == rest,
                None => res is Err && res->Err_0 == DecodeError::UnexpectedEnd && final(r)@ == old(r)@,
            },
    {
        proof {
            reveal(get_certificate_verify);
        }
        let mut p = *r;
        let algorithm: u16 = p.u16()?;
        let signature = to_vec(p.vec_u16()?);
        *r = p;
        Ok(Self { algorithm, signature })
    }
}

/// The message that closes a handshake flight.
#[derive(Debug, Clone, PartialEq, Eq)]
pub struct Finished {
    pub verify_data: Vec<u8>,
}

impl Finished {
    /// Appends the wire form of the body.
    pub fn encode(&self, out: &mut Vec<u8>)
        ensures
            final(out)@ == old(out)@ + self.verify_data@,
    {
        put_slice(out, self.verify_data.as_slice());
    }

    /// Reads the body: everything there is.
    pub fn decode<'a>(r: &mut Reader<'a>) -> (res: Result<Self, DecodeError>)
        ensures
            res is Ok,
            res->Ok_0.verify_data@ == old(r)@,
            final(r)@.len() == 0,
    {
        Ok(Self { verify_data: to_vec(r.take_all()) })
    }
}

/// The message that announces the next traffic secret.
#[derive(Debug, Clone, Copy, PartialEq, Eq, Structural)]
pub struct KeyUpdate {
    pub request_update: u8,
}

/// The KeyUpdate at the front of `s`, and what follows it.
pub open spec fn get_key_update(s: Seq<u8>) -> Result<(u8, Seq<u8>), DecodeError> {
    match get_u8(s) {
        None => Err(DecodeError::UnexpectedEnd),
        Some((v, rest)) => if v > 1 {
            Err(DecodeError::InvalidEnum)
        } else {
            Ok((v, rest))
        },
    }
}

impl KeyUpdate {
    /// Appends the wire form of the body.
    pub fn encode(&self, out: &mut Vec<u8>)
        ensures
            final(out)@ == old(out)@ + seq![self.request_update],
    {
        put_u8(out, self.request_update);
    }

    /// Reads the body.
    pub fn decode<'a>(r: &mut Reader<'a>) -> (res: Result<Self, DecodeError>)
        ensures
            match get_key_update(old(r)@) {
                Ok((v, rest)) => res == Ok::<Self, DecodeError>(KeyUpdate { request_update: v })
                    && final(r)@ == rest,
                Err(e) => res == Err::<Self, DecodeError>(e) && final(r)@ == old(r)@,
            },
    {
        let mut p = *r;
        let request_update: u8 = p.u8()?;
        if request_update > 1 {
            return Err(DecodeError::InvalidEnum);
        }
        *r = p;
        Ok(Self { request_update })
    }
}

/// A ticket to resume this session with.
#[derive(Debug, Clone, PartialEq, Eq)]
pub struct NewSessionTicket {
    pub ticket_lifetime: u32,
    pub ticket_age_add: u32,
    pub ticket_nonce: Vec<u8>,
    pub ticket: Vec<u8>,
    pub extensions: Vec<Extension>,
}

/// What a NewSessionTicket says.
#[verifier::ext_equal]
pub struct NewSessionTicketView {
    pub ticket_lifetime: u32,
    pub ticket_age_add: u32,
    pub ticket_nonce: Seq<u8>,
    pub ticket: Seq<u8>,
    pub extensions: Seq<ExtensionView>,
}

impl View for NewSessionTicket {
    type V = NewSessionTicketView;

    open spec fn view(&self) -> NewSessionTicketView {
        NewSessionTicketView {
            ticket_lifetime: self.ticket_lifetime,
            ticket_age_add: self.ticket_age_add,
            ticket_nonce: self.ticket_nonce@,
            ticket: self.ticket@,
            extensions: extensions_view(self.extensions@),
        }
    }
}

impl NewSessionTicketView {
    /// Whether every vector fits its length prefix.
    pub open spec fn fits(self) -> bool {
        &&& self.ticket_nonce.len() <= 0xff
        &&& self.ticket.len() <= 0xffff
        &&& extensions_fit(self.extensions)
    }

    /// The wire form of the body.
    pub open spec fn body(self) -> Seq<u8> {
        be32(self.ticket_lifetime) + be32(self.ticket_age_add) + vec8(self.ticket_nonce) + vec16(
            self.ticket,
        ) + extensions_bytes(self.extensions)
    }
}

/// The NewSessionTicket at the front of `s`, and what follows it.
#[verifier::opaque]
pub open spec fn get_new_session_ticket(s: Seq<u8>) -> Option<(NewSessionTicketView, Seq<u8>)> {
    match get_u32(s) {
        None => None,
        Some((ticket_lifetime, s1)) => match get_u32(s1) {
            None => None,
            Some((ticket_age_add, s2)) => match get_vec8(s2) {
                None => None,
                Some((ticket_nonce, s3)) => match get_vec16(s3) {
                    None => None,
                    Some((ticket, s4)) => match get_extensions(s4) {
                        None => None,
                        Some((extensions, rest)) => Some(
                            (
                                NewSessionTicketView {
                                    ticket_lifetime,
                                    ticket_age_add,
                                    ticket_nonce,
                                    ticket,
                                    extensions,
                                },
                                rest,
                            ),
                        ),
                    },
                },
            },
        },
    }
}

#[verifier::rlimit(40)]
proof fn lemma_new_session_ticket_round_trip(m: NewSessionTicketView, rest: Seq<u8>)
    requires
        m.fits(),
    ensures
        get_new_session_ticket(m.body() + rest) == Some((m, rest)),
{
    reveal(get_new_session_ticket);
    let r4 = extensions_bytes(m.extensions) + rest;
    let r3 = vec16(m.ticket) + r4;
    let r2 = vec8(m.ticket_nonce) + r3;
    let r1 = be32(m.ticket_age_add) + r2;
    assert(m.body() + rest =~= be32(m.ticket_lifetime) + r1);
    lemma_be32(m.ticket_lifetime, r1);
    lemma_be32(m.ticket_age_add, r2);
    lemma_vec_round_trip(m.ticket_nonce, r3);
    lemma_vec_round_trip(m.ticket, r4);
    law_extensions_round_trip(m.extensions, rest);
}

impl NewSessionTicket {
    /// Appends the wire form of the body.
    pub fn encode(&self, out: &mut Vec<u8>)
        requires
            self@.fits(),
        ensures
            final(out)@ == old(out)@ + self@.body(),
    {
        put_u32(out, self.ticket_lifetime);
        put_u32(out, self.ticket_age_add);
        put_vec_u8(out, self.ticket_nonce.as_slice());
        put_vec_u16(out, self.ticket.as_slice());
        Extension::encode_list(&self.extensions, out);
        assert(out@ =~= old(out)@ + self@.body());
    }

    /// Reads the body.
    pub fn decode<'a>(r: &mut Reader<'a>) -> (res: Result<Self, DecodeError>)
        ensures
            match get_new_session_ticket(old(r)@) {
                Some((m, rest)) => res is Ok && res->Ok_0@ == m && final(r)@ == rest,
                None => res is Err && res->Err_0 == DecodeError::UnexpectedEnd && final(r)@ == old(r)@,
            },
    {
        proof {
            reveal(get_new_session_ticket);
        }
        let mut p = *r;
        let ticket_lifetime: u32 = p.u32()?;
        let ticket_age_add: u32 = p.u32()?;
        let ticket_nonce = to_vec(p.vec_u8()?);
        let ticket = to_vec(p.vec_u16()?);
        let extensions = Extension::decode_list(&mut p)?;
        *r = p;
        Ok(Self { ticket_lifetime, ticket_age_add, ticket_nonce, ticket, extensions })
    }
}

/// A handshake message.
#[derive(Debug, Clone, PartialEq, Eq)]
pub enum Handshake {
    ClientHello(ClientHello),
    ServerHello(ServerHello),
    EndOfEarlyData,
    EncryptedExtensions(EncryptedExtensions),
    CertificateRequest(CertificateRequest),
    Certificate(Certificate),
    CertificateVerify(CertificateVerify),
    Finished(Finished),
    KeyUpdate(KeyUpdate),
    NewSessionTicket(NewSessionTicket),
}

/// What a handshake message says.
#[verifier::ext_equal]
pub enum HandshakeView {
    ClientHello(ClientHelloView),
    ServerHello(ServerHelloView),
    EndOfEarlyData,
    EncryptedExtensions(Seq<ExtensionView>),
    CertificateRequest(CertificateRequestView),
    Certificate(CertificateView),
    CertificateVerify(CertificateVerifyView),
    Finished(Seq<u8>),
    KeyUpdate(u8),
    NewSessionTicket(NewSessionTicketView),
}

impl View for Handshake {
    type V = HandshakeView;

    open spec fn view(&self) -> HandshakeView {
        match self {
            Handshake::ClientHello(m) => HandshakeView::ClientHello(m@),
            Handshake::ServerHello(m) => HandshakeView::ServerHello(m@),
            Handshake::EndOfEarlyData => HandshakeView::EndOfEarlyData,
            Handshake::EncryptedExtensions(m) => HandshakeView::EncryptedExtensions(m@),
            Handshake::CertificateRequest(m) => HandshakeView::CertificateRequest(m@),
            Handshake::Certificate(m) => HandshakeView::Certificate(m@),
            Handshake::CertificateVerify(m) => HandshakeView::CertificateVerify(m@),
            Handshake::Finished(m) => HandshakeView::Finished(m.verify_data@),
            Handshake::KeyUpdate(m) => HandshakeView::KeyUpdate(m.request_update),
            Handshake::NewSessionTicket(m) => HandshakeView::NewSessionTicket(m@),
        }
    }
}

impl HandshakeView {
    /// What the message is.
    pub open spec fn ty(self) -> HandshakeType {
        match self {
            HandshakeView::ClientHello(_) => HandshakeType::ClientHello,
            HandshakeView::ServerHello(_) => HandshakeType::ServerHello,
            HandshakeView::EndOfEarlyData => HandshakeType::EndOfEarlyData,
            HandshakeView::EncryptedExtensions(_) => HandshakeType::EncryptedExtensions,
            HandshakeView::CertificateRequest(_) => HandshakeType::CertificateRequest,
            HandshakeView::Certificate(_) => HandshakeType::Certificate,
            HandshakeView::CertificateVerify(_) => HandshakeType::CertificateVerify,
            HandshakeView::Finished(_) => HandshakeType::Finished,
            HandshakeView::KeyUpdate(_) => HandshakeType::KeyUpdate,
            HandshakeView::NewSessionTicket(_) => HandshakeType::NewSessionTicket,
        }
    }

    /// The wire form of the body.
    pub open spec fn body(self) -> Seq<u8> {
        match self {
            HandshakeView::ClientHello(m) => m.body(),
            HandshakeView::ServerHello(m) => m.body(),
            HandshakeView::EndOfEarlyData => Seq::empty(),
            HandshakeView::EncryptedExtensions(m) => extensions_bytes(m),
            HandshakeView::CertificateRequest(m) => m.body(),
            HandshakeView::Certificate(m) => m.body(),
            HandshakeView::CertificateVerify(m) => m.body(),
            HandshakeView::Finished(m) => m,
            HandshakeView::KeyUpdate(v) => seq![v],
            HandshakeView::NewSessionTicket(m) => m.body(),
        }
    }

    /// Whether every vector of the body, and the body itself, fits its length
    /// prefix.
    pub open spec fn fits(self) -> bool {
        &&& self.body().len() <= MAX_U24
        &&& match self {
            HandshakeView::ClientHello(m) => m.fits(),
            HandshakeView::ServerHello(m) => m.fits(),
            HandshakeView::EncryptedExtensions(m) => extensions_fit(m),
            HandshakeView::CertificateRequest(m) => m.fits(),
            HandshakeView::Certificate(m) => m.fits(),
            HandshakeView::CertificateVerify(m) => m.fits(),
            HandshakeView::NewSessionTicket(m) => m.fits(),
            _ => true,
        }
    }

    /// Whether the message is one that decoding accepts: no more certificates
    /// than are accepted, and a KeyUpdate that asks for an answer or does not.
    pub open spec fn acceptable(self) -> bool {
        match self {
            HandshakeView::Certificate(m) => m.certificate_list.len() <= MAX_CERTIFICATE_ENTRIES,
            HandshakeView::KeyUpdate(v) => v <= 1,
            _ => true,
        }
    }

    /// The wire form: the type, the length, the body.
    pub open spec fn bytes(self) -> Seq<u8> {
        seq![type_id(self.ty())] + vec24(self.body())
    }
}

/// What `body` says, where all of it is the body of a message of type `ty`, and
/// what follows the message in it.
#[verifier::opaque]
pub open spec fn get_body(ty: HandshakeType, body: Seq<u8>) -> Result<
    (HandshakeView, Seq<u8>),
    DecodeError,
> {
    match ty {
        HandshakeType::ClientHello => match get_client_hello(body) {
            Some((m, rest)) => Ok((HandshakeView::ClientHello(m), rest)),
            None => Err(DecodeError::UnexpectedEnd),
        },
        HandshakeType::ServerHello => match get_server_hello(body) {
            Some((m, rest)) => Ok((HandshakeView::ServerHello(m), rest)),
            None => Err(DecodeError::UnexpectedEnd),
        },
        HandshakeType::EndOfEarlyData => Ok((HandshakeView::EndOfEarlyData, body)),
        HandshakeType::EncryptedExtensions => match get_extensions(body) {
            Some((m, rest)) => Ok((HandshakeView::EncryptedExtensions(m), rest)),
            None => Err(DecodeError::UnexpectedEnd),
        },
        HandshakeType::CertificateRequest => match get_certificate_request(body) {
            Some((m, rest)) => Ok((HandshakeView::CertificateRequest(m), rest)),
            None => Err(DecodeError::UnexpectedEnd),
        },
        HandshakeType::Certificate => match get_certificate(body) {
            Ok((m, rest)) => Ok((HandshakeView::Certificate(m), rest)),
            Err(e) => Err(e),
        },
        HandshakeType::CertificateVerify => match get_certificate_verify(body) {
            Some((m, rest)) => Ok((HandshakeView::CertificateVerify(m), rest)),
            None => Err(DecodeError::UnexpectedEnd),
        },
        HandshakeType::Finished => Ok((HandshakeView::Finished(body), Seq::empty())),
        HandshakeType::KeyUpdate => match get_key_update(body) {
            Ok((v, rest)) => Ok((HandshakeView::KeyUpdate(v), rest)),
            Err(e) => Err(e),
        },
        HandshakeType::NewSessionTicket => match get_new_session_ticket(body) {
            Some((m, rest)) => Ok((HandshakeView::NewSessionTicket(m), rest)),
            None => Err(DecodeError::UnexpectedEnd),
        },
        HandshakeType::MessageHash => Err(DecodeError::InvalidEnum),
    }
}

/// The handshake message at the front of `s`, and what follows it.
#[verifier::opaque]
pub open spec fn get_handshake(s: Seq<u8>) -> Result<(HandshakeView, Seq<u8>), DecodeError> {
    match get_u8(s) {
        None => Err(DecodeError::UnexpectedEnd),
        Some((b, s1)) => match handshake_type(b) {
            None => Err(DecodeError::InvalidEnum),
            Some(ty) => match get_vec24(s1) {
                None => Err(DecodeError::UnexpectedEnd),
                Some((body, rest)) => match get_body(ty, body) {
                    Err(e) => Err(e),
                    Ok((m, left)) => if left.len() == 0 {
                        Ok((m, rest))
                    } else {
                        Err(DecodeError::Trailing)
                    },
                },
            },
        },
    }
}

/// The body of a message reads back as the message.
#[verifier::spinoff_prover]
proof fn lemma_body_round_trip(m: HandshakeView)
    requires
        m.fits(),
        m.acceptable(),
    ensures
        get_body(m.ty(), m.body()) == Ok::<(HandshakeView, Seq<u8>), DecodeError>(
            (m, Seq::<u8>::empty()),
        ),
{
    reveal(get_body);
    let e = Seq::<u8>::empty();
    assert(m.body() + e =~= m.body());
    match m {
        HandshakeView::ClientHello(c) => lemma_client_hello_round_trip(c, e),
        HandshakeView::ServerHello(c) => lemma_server_hello_round_trip(c, e),
        HandshakeView::EndOfEarlyData => {},
        HandshakeView::EncryptedExtensions(c) => law_extensions_round_trip(c, e),
        HandshakeView::CertificateRequest(c) => lemma_certificate_request_round_trip(c, e),
        HandshakeView::Certificate(c) => lemma_certificate_round_trip(c, e),
        HandshakeView::CertificateVerify(c) => lemma_certificate_verify_round_trip(c, e),
        HandshakeView::Finished(_) => {},
        HandshakeView::KeyUpdate(v) => {
            assert(seq![v].skip(1) =~= e);
        },
        HandshakeView::NewSessionTicket(c) => lemma_new_session_ticket_round_trip(c, e),
    }
}

/// A handshake message is decoded from its wire form, whatever follows it.
pub proof fn law_handshake_round_trip(m: HandshakeView, rest: Seq<u8>)
    requires
        m.fits(),
        m.acceptable(),
    ensures
        get_handshake(m.bytes() + rest) == Ok::<(HandshakeView, Seq<u8>), DecodeError>((m, rest)),
{
    reveal(get_handshake);
    let body = m.body();
    assert(m.bytes() + rest =~= seq![type_id(m.ty())] + (vec24(body) + rest));
    assert((seq![type_id(m.ty())] + (vec24(body) + rest)).skip(1) =~= vec24(body) + rest);
    lemma_vec_round_trip(body, rest);
    lemma_body_round_trip(m);
}

impl Handshake {
    /// What the message is.
    pub fn msg_type(&self) -> (r: HandshakeType)
        ensures
            r == self@.ty(),
    {
        match self {
            Handshake::ClientHello(_) => HandshakeType::ClientHello,
            Handshake::ServerHello(_) => HandshakeType::ServerHello,
            Handshake::EndOfEarlyData => HandshakeType::EndOfEarlyData,
            Handshake::EncryptedExtensions(_) => HandshakeType::EncryptedExtensions,
            Handshake::CertificateRequest(_) => HandshakeType::CertificateRequest,
            Handshake::Certificate(_) => HandshakeType::Certificate,
            Handshake::CertificateVerify(_) => HandshakeType::CertificateVerify,
            Handshake::Finished(_) => HandshakeType::Finished,
            Handshake::KeyUpdate(_) => HandshakeType::KeyUpdate,
            Handshake::NewSessionTicket(_) => HandshakeType::NewSessionTicket,
        }
    }

    /// Appends the wire form.
    pub fn encode(&self, out: &mut Vec<u8>)
        requires
            self@.fits(),
        ensures
            final(out)@ == old(out)@ + self@.bytes(),
    {
        put_u8(out, self.msg_type().to_u8());
        let mut body: Vec<u8> = Vec::new();
        match self {
            Handshake::ClientHello(m) => m.encode(&mut body),
            Handshake::ServerHello(m) => m.encode(&mut body),
            Handshake::EndOfEarlyData => {},
            Handshake::EncryptedExtensions(m) => m.encode(&mut body),
            Handshake::CertificateRequest(m) => m.encode(&mut body),
            Handshake::Certificate(m) => m.encode(&mut body),
            Handshake::CertificateVerify(m) => m.encode(&mut body),
            Handshake::Finished(m) => m.encode(&mut body),
            Handshake::KeyUpdate(m) => m.encode(&mut body),
            Handshake::NewSessionTicket(m) => m.encode(&mut body),
        }
        assert(body@ =~= self@.body());
        put_vec_u24(out, body.as_slice());
        assert(out@ =~= old(out)@ + self@.bytes());
    }

    /// Reads one message.
    pub fn decode<'a>(r: &mut Reader<'a>) -> (res: Result<Self, DecodeError>)
        ensures
            match get_handshake(old(r)@) {
                Ok((m, rest)) => res is Ok && res->Ok_0@ == m && final(r)@ == rest,
                Err(e) => res is Err && res->Err_0 == e && final(r)@ == old(r)@,
            },
    {
        proof {
            reveal(get_handshake);
            reveal(get_body);
        }
        let mut p = *r;
        let type_byte: u8 = p.u8()?;
        let ty = HandshakeType::from_u8(type_byte)?;
        let mut body = p.sub_u24()?;
        let m = match ty {
            HandshakeType::ClientHello => Handshake::ClientHello(ClientHello::decode(&mut body)?),
            HandshakeType::ServerHello => Handshake::ServerHello(ServerHello::decode(&mut body)?),
            HandshakeType::EndOfEarlyData => Handshake::EndOfEarlyData,
            HandshakeType::EncryptedExtensions => {
                Handshake::EncryptedExtensions(EncryptedExtensions::decode(&mut body)?)
            },
            HandshakeType::CertificateRequest => {
                Handshake::CertificateRequest(CertificateRequest::decode(&mut body)?)
            },
            HandshakeType::Certificate => Handshake::Certificate(Certificate::decode(&mut body)?),
            HandshakeType::CertificateVerify => {
                Handshake::CertificateVerify(CertificateVerify::decode(&mut body)?)
            },
            HandshakeType::Finished => Handshake::Finished(Finished::decode(&mut body)?),
            HandshakeType::KeyUpdate => Handshake::KeyUpdate(KeyUpdate::decode(&mut body)?),
            HandshakeType::NewSessionTicket => {
                Handshake::NewSessionTicket(NewSessionTicket::decode(&mut body)?)
            },
            HandshakeType::MessageHash => return Err(DecodeError::InvalidEnum),
        };
        body.finish()?;
        *r = p;
        Ok(m)
    }
}

} // verus!
