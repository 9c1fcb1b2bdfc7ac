//! What stands on the wire, byte by byte.

use vstd::prelude::*;

use crate::alert::{description_id, AlertDescription};
use crate::codec::{be16, be64, from_be16, lemma_be16};
use crate::crypto::aead::{nonce_for, opened, sealed, AeadAlgorithm, AeadKeyView};
use crate::crypto::hash::Algorithm;
use crate::crypto::laws::{code, iv_label, key_label, law_traffic_keys};
use crate::handshake::{type_id, HandshakeView};
use crate::identity::chain::Error as ChainError;
use crate::record::{
    content_id, inner_content, law_padding_is_ignored, opened_record, opener_after, parse_plaintext,
    plaintext_record, record_header, record_key, seal_outcome, sealed_record, slice_outcome, strip_zeros, CipherSuite,
    ContentType, OpenerView, RecordError,
};
use crate::{alert_for, loggable, Error, EventView, Loggable};

verus! {

/// The number in two bytes.
pub open spec fn two_bytes(a: u8, b: u8) -> int {
    a * 256 + b
}

/// An unprotected record is its type, the version, the length of its body in two
/// bytes, and the body.
pub proof fn law_plaintext_on_wire(ty: ContentType, body: Seq<u8>)
    requires
        body.len() <= 16384,
    ensures
        plaintext_record(ty, body) == seq![
            match ty {
                ContentType::ChangeCipherSpec => 20u8,
                ContentType::Alert => 21,
                ContentType::Handshake => 22,
                ContentType::ApplicationData => 23,
            },
            3,
            3,
            (body.len() / 256) as u8,
            (body.len() % 256) as u8,
        ] + body,
{
    assert(plaintext_record(ty, body) =~= seq![
        content_id(ty),
        3u8,
        3,
        (body.len() / 256) as u8,
        (body.len() % 256) as u8,
    ] + body);
}

/// What is read at the front of bytes as an unprotected record: nothing while it is not
/// all there, and an error for a type that there is not or a body that is too long.
pub proof fn law_plaintext_is_read(input: Seq<u8>)
    ensures
        input.len() < 5 ==> parse_plaintext(input) == Ok::<Option<(ContentType, Seq<u8>, nat)>, RecordError>(None),
        input.len() >= 5 && !(20 <= input[0] <= 23) ==> parse_plaintext(input) == Err::<
            Option<(ContentType, Seq<u8>, nat)>,
            RecordError,
        >(RecordError::BadContentType),
        input.len() >= 5 && 20 <= input[0] <= 23 ==> {
            let n = two_bytes(input[3], input[4]);
            &&& n > 16384 ==> parse_plaintext(input) == Err::<Option<(ContentType, Seq<u8>, nat)>, RecordError>(
                RecordError::BodyTooLarge,
            )
            &&& n <= 16384 && input.len() < 5 + n ==> parse_plaintext(input) == Ok::<
                Option<(ContentType, Seq<u8>, nat)>,
                RecordError,
            >(None)
            &&& n <= 16384 && input.len() >= 5 + n ==> {
                &&& parse_plaintext(input) matches Ok(Some(r)) && r.1 == input.subrange(5, 5 + n) && r.2 == 5 + n
                    && content_id(r.0) == input[0]
            }
        },
{
    if input.len() >= 5 {
        let s = input.skip(3);
        assert(s[0] == input[3] && s[1] == input[4]);
    }
}

/// The nonce of a record: the IV, with the number of the record over its last eight
/// bytes, the most significant first.
pub open spec fn nonce_of(iv: Seq<u8>, seq: u64) -> Seq<u8> {
    iv.take(4) + seq![
        iv[4] ^ (seq / 0x100_0000_0000_0000) as u8,
        iv[5] ^ (seq / 0x1_0000_0000_0000 % 256) as u8,
        iv[6] ^ (seq / 0x100_0000_0000 % 256) as u8,
        iv[7] ^ (seq / 0x1_0000_0000 % 256) as u8,
        iv[8] ^ (seq / 0x100_0000 % 256) as u8,
        iv[9] ^ (seq / 0x1_0000 % 256) as u8,
        iv[10] ^ (seq / 0x100 % 256) as u8,
        iv[11] ^ (seq % 256) as u8,
    ]
}

proof fn lemma_nonce(iv: Seq<u8>, seq: u64)
    requires
        iv.len() == 12,
    ensures
        nonce_for(iv, seq) == nonce_of(iv, seq),
{
    let hi = (seq / 0x1_0000_0000) as u32;
    let lo = (seq % 0x1_0000_0000) as u32;
    assert(hi / 16777216 == seq / 0x100_0000_0000_0000 && hi / 65536 % 256 == seq / 0x1_0000_0000_0000 % 256 && hi / 256
        % 256 == seq / 0x100_0000_0000 % 256 && hi % 256 == seq / 0x1_0000_0000 % 256) by (bit_vector)
        requires
            hi == (seq / 0x1_0000_0000) as u32,
    ;
    assert(lo / 16777216 == seq / 0x100_0000 % 256 && lo / 65536 % 256 == seq / 0x1_0000 % 256 && lo / 256 % 256 == seq
        / 0x100 % 256 && lo % 256 == seq % 256) by (bit_vector)
        requires
            lo == (seq % 0x1_0000_0000) as u32,
    ;
    assert(be64(seq) =~= seq![
        (hi / 16777216) as u8,
        (hi / 65536 % 256) as u8,
        (hi / 256 % 256) as u8,
        (hi % 256) as u8,
        (lo / 16777216) as u8,
        (lo / 65536 % 256) as u8,
        (lo / 256 % 256) as u8,
        (lo % 256) as u8,
    ]);
    assert(nonce_for(iv, seq) =~= nonce_of(iv, seq));
}

/// A protected record is a header that says application data and the length of what
/// follows, and behind it the body and its type, sealed under the record's nonce with
/// the header authenticated.
pub proof fn law_protected_on_wire(key: AeadKeyView, seq: u64, ty: ContentType, body: Seq<u8>)
    requires
        key.iv.len() == 12,
        body.len() <= 16384,
    ensures
        ({
            let n = body.len() + 17;
            let header = seq![23u8, 3, 3, (n / 256) as u8, (n % 256) as u8];
            sealed_record(key, seq, ty, body) == header + sealed(
                key.alg,
                key.key,
                nonce_of(key.iv, seq),
                header,
                body + seq![
                    match ty {
                        ContentType::ChangeCipherSpec => 20u8,
                        ContentType::Alert => 21,
                        ContentType::Handshake => 22,
                        ContentType::ApplicationData => 23,
                    },
                ],
            )
        }),
{
    let n = body.len() + 17;
    let header = seq![23u8, 3, 3, (n / 256) as u8, (n % 256) as u8];
    assert(record_header(23, n as u16) =~= header);
    assert(body.push(content_id(ty)) =~= body + seq![content_id(ty)]);
    lemma_nonce(key.iv, seq);
}

/// The keys of a traffic secret under a suite.
pub proof fn law_record_keys(secret: Seq<u8>)
    ensures
        ({
            let k = record_key(secret, CipherSuite::Aes128GcmSha256);
            &&& k.alg == AeadAlgorithm::Aes128Gcm
            &&& k.key == code(Algorithm::Sha256, secret, key_label(), Seq::empty(), 16)
            &&& k.iv == code(Algorithm::Sha256, secret, iv_label(), Seq::empty(), 12)
        }),
        ({
            let k = record_key(secret, CipherSuite::ChaCha20Poly1305Sha256);
            &&& k.alg == AeadAlgorithm::ChaCha20Poly1305
            &&& k.key == code(Algorithm::Sha256, secret, key_label(), Seq::empty(), 32)
            &&& k.iv == code(Algorithm::Sha256, secret, iv_label(), Seq::empty(), 12)
        }),
        ({
            let k = record_key(secret, CipherSuite::Aes256GcmSha384);
            &&& k.alg == AeadAlgorithm::Aes256Gcm
            &&& k.key == code(Algorithm::Sha384, secret, key_label(), Seq::empty(), 32)
            &&& k.iv == code(Algorithm::Sha384, secret, iv_label(), Seq::empty(), 12)
        }),
{
    law_traffic_keys(Algorithm::Sha256, secret, 16);
    law_traffic_keys(Algorithm::Sha256, secret, 32);
    law_traffic_keys(Algorithm::Sha384, secret, 32);
}

/// Whether under a key the cipher opens what it seals.
pub open spec fn cipher_opens(key: AeadKeyView) -> bool {
    forall|nonce: Seq<u8>, aad: Seq<u8>, p: Seq<u8>|
        #![trigger sealed(key.alg, key.key, nonce, aad, p)]
        nonce.len() == 12 ==> {
            let c = sealed(key.alg, key.key, nonce, aad, p);
            c.len() == p.len() + 16 && opened(key.alg, key.key, nonce, aad, c) == Some(p)
        }
}

/// What one side seals the other opens, record by record: an opener with the key, at
/// the number of a record, gives back its type and body, whatever follows, and goes on
/// to the next number.
pub proof fn law_opener_follows_sealer(
    key: AeadKeyView,
    seq: u64,
    ty: ContentType,
    body: Seq<u8>,
    rest: Seq<u8>,
)
    requires
        cipher_opens(key),
        body.len() <= 16384,
        seq < u64::MAX,
        ty != ContentType::ChangeCipherSpec,
    ensures
        ({
            let o = OpenerView { key, seq, poisoned: false };
            let record = sealed_record(key, seq, ty, body);
            &&& record.len() == body.len() + 22
            &&& opened_record(o, record + rest) == Ok::<Option<(ContentType, Seq<u8>, nat)>, RecordError>(
                Some((ty, body, record.len())),
            )
            &&& opener_after(o, record + rest) == (OpenerView { key, seq: (seq + 1) as u64, poisoned: false })
        }),
{
    let n = (body.len() + 17) as u16;
    let header = record_header(23, n);
    let plain = body.push(content_id(ty));
    let c = sealed(key.alg, key.key, nonce_for(key.iv, seq), header, plain);
    let record = sealed_record(key, seq, ty, body);
    let input = record + rest;
    assert(nonce_for(key.iv, seq).len() == 12);
    assert(c.len() == body.len() + 17);
    assert(input.skip(3) =~= be16(n) + (c + rest));
    lemma_be16(n, c + rest);
    assert(from_be16(input.skip(3)) == n);
    assert(input[0] == 23);
    assert(input.take(5) =~= header);
    assert(input.subrange(5, 5 + n) =~= c);
    assert(strip_zeros(plain) == plain);
    assert(plain.drop_last() =~= body);
}

/// What the inside of a record is: behind the content stand its type and zeros. A
/// content that is too long, a type that there is not or that is not passed on, and
/// nothing but zeros are refused.
pub proof fn law_inside_of_a_record(content: Seq<u8>, b: u8, zeros: nat)
    requires
        b != 0,
    ensures
        ({
            let plain = content.push(b) + Seq::new(zeros, |i: int| 0u8);
            &&& content.len() > 16384 ==> inner_content(plain) == Err::<(ContentType, Seq<u8>), RecordError>(
                RecordError::RecordOverflow,
            )
            &&& content.len() <= 16384 ==> {
                &&& b == 20 ==> inner_content(plain) == Err::<(ContentType, Seq<u8>), RecordError>(
                    RecordError::UnexpectedChangeCipherSpec,
                )
                &&& b == 21 ==> inner_content(plain) == Ok::<(ContentType, Seq<u8>), RecordError>(
                    (ContentType::Alert, content),
                )
                &&& b == 22 ==> inner_content(plain) == Ok::<(ContentType, Seq<u8>), RecordError>(
                    (ContentType::Handshake, content),
                )
                &&& b == 23 ==> inner_content(plain) == Ok::<(ContentType, Seq<u8>), RecordError>(
                    (ContentType::ApplicationData, content),
                )
                &&& !(20 <= b <= 23) ==> inner_content(plain) == Err::<(ContentType, Seq<u8>), RecordError>(
                    RecordError::BadContentType,
                )
            }
        }),
        inner_content(Seq::new(zeros, |i: int| 0u8)) == Err::<(ContentType, Seq<u8>), RecordError>(
            RecordError::AllZeroInner,
        ),
{
    law_padding_is_ignored(content.push(b), zeros);
    assert(content.push(b).drop_last() =~= content);
    let none = Seq::<u8>::empty();
    law_padding_is_ignored(none, zeros);
    assert(none + Seq::new(zeros, |i: int| 0u8) =~= Seq::new(zeros, |i: int| 0u8));
}

/// What is made of bytes as a protected record: nothing while it is not all there; one
/// that is too long, is not marked as application data, comes after the last number or
/// does not authenticate is refused.
pub proof fn law_protected_is_read(o: OpenerView, input: Seq<u8>)
    requires
        o.key.iv.len() == 12,
        !o.poisoned,
    ensures
        input.len() < 5 ==> opened_record(o, input) == Ok::<Option<(ContentType, Seq<u8>, nat)>, RecordError>(None)
            && opener_after(o, input) == o,
        input.len() >= 5 ==> {
            let n = two_bytes(input[3], input[4]);
            &&& n > 16640 ==> opened_record(o, input) == Err::<Option<(ContentType, Seq<u8>, nat)>, RecordError>(
                RecordError::BodyTooLarge,
            ) && opener_after(o, input) == o
            &&& n <= 16640 && input.len() < 5 + n ==> opened_record(o, input) == Ok::<
                Option<(ContentType, Seq<u8>, nat)>,
                RecordError,
            >(None) && opener_after(o, input) == o
            &&& n <= 16640 && input.len() >= 5 + n && input[0] != 23 ==> opened_record(o, input) == Err::<
                Option<(ContentType, Seq<u8>, nat)>,
                RecordError,
            >(RecordError::NotCipherTextOuter) && opener_after(o, input) == o
            &&& n <= 16640 && input.len() >= 5 + n && input[0] == 23 && o.seq == u64::MAX ==> opened_record(
                o,
                input,
            ) == Err::<Option<(ContentType, Seq<u8>, nat)>, RecordError>(RecordError::SeqExhausted) && opener_after(
                o,
                input,
            ) == o
            &&& n <= 16640 && input.len() >= 5 + n && input[0] == 23 && o.seq < u64::MAX ==> match opened(
                o.key.alg,
                o.key.key,
                nonce_of(o.key.iv, o.seq),
                input.take(5),
                input.subrange(5, 5 + n),
            ) {
                None => opened_record(o, input) == Err::<Option<(ContentType, Seq<u8>, nat)>, RecordError>(
                    RecordError::OpenFailed,
                ) && opener_after(o, input) == (OpenerView { poisoned: true, ..o }),
                Some(plain) => {
                    &&& opener_after(o, input) == (OpenerView { seq: (o.seq + 1) as u64, ..o })
                    &&& opened_record(o, input) is Ok == inner_content(plain) is Ok
                    &&& inner_content(plain) matches Ok(c) ==> opened_record(o, input) == Ok::<
                        Option<(ContentType, Seq<u8>, nat)>,
                        RecordError,
                    >(Some((c.0, c.1, (5 + n) as nat)))
                    &&& inner_content(plain) matches Err(e) ==> opened_record(o, input) == Err::<
                        Option<(ContentType, Seq<u8>, nat)>,
                        RecordError,
                    >(e)
                },
            }
        },
{
    if input.len() >= 5 {
        let s = input.skip(3);
        assert(s[0] == input[3] && s[1] == input[4]);
        lemma_nonce(o.key.iv, o.seq);
    }
}

/// A handshake message is its type, the length of its body in three bytes, and its
/// body.
pub proof fn law_message_on_wire(m: HandshakeView)
    requires
        m.body().len() <= 0xff_ffff,
    ensures
        m.bytes() == seq![
            match m {
                HandshakeView::ClientHello(_) => 1u8,
                HandshakeView::ServerHello(_) => 2,
                HandshakeView::NewSessionTicket(_) => 4,
                HandshakeView::EndOfEarlyData => 5,
                HandshakeView::EncryptedExtensions(_) => 8,
                HandshakeView::Certificate(_) => 11,
                HandshakeView::CertificateRequest(_) => 13,
                HandshakeView::CertificateVerify(_) => 15,
                HandshakeView::Finished(_) => 20,
                HandshakeView::KeyUpdate(_) => 24,
            },
            (m.body().len() / 65536) as u8,
            (m.body().len() / 256 % 256) as u8,
            (m.body().len() % 256) as u8,
        ] + m.body(),
{
    let n = m.body().len();
    assert(n / 65536 % 256 == n / 65536);
    assert(m.bytes() =~= seq![
        type_id(m.ty()),
        (n / 65536) as u8,
        (n / 256 % 256) as u8,
        (n % 256) as u8,
    ] + m.body());
}

/// What a peer is told of an error, by the code point of the alert: each alert is for
/// the errors that it is meant for and for no others.
pub proof fn law_alerts_say_what_went_wrong(e: Error)
    ensures
        description_id(alert_for(e)) == 10 <==> e == Error::UnexpectedMessage || e == Error::EarlyDataLimitExceeded,
        description_id(alert_for(e)) == 40 <==> e == Error::UnsupportedCipherSuite || e == Error::UnsupportedGroup || e
            == Error::UnsupportedSigScheme || e == Error::KeyShareNotFound,
        description_id(alert_for(e)) == 42 <==> e == Error::BadCertificate || e is BadCertificateParse || (
        e is BadCertificateChain && e->BadCertificateChain_0 != ChainError::Expired && e->BadCertificateChain_0
            != ChainError::NotYetValid && e->BadCertificateChain_0 != ChainError::NoTrustAnchor),
        description_id(alert_for(e)) == 45 <==> e == Error::BadCertificateChain(ChainError::Expired) || e
            == Error::BadCertificateChain(ChainError::NotYetValid),
        description_id(alert_for(e)) == 47 <==> e == Error::IllegalParameter || e == Error::DowngradeDetected || e
            == Error::SigSchemeNotOffered || e == Error::Kx,
        description_id(alert_for(e)) == 48 <==> e is NoTrustAnchorForIssuer || e == Error::BadCertificateChain(
            ChainError::NoTrustAnchor,
        ),
        description_id(alert_for(e)) == 49 <==> e == Error::AccessDenied,
        description_id(alert_for(e)) == 50 <==> e == Error::Decode,
        description_id(alert_for(e)) == 51 <==> e == Error::BadCertificateVerify || e == Error::BadFinished,
        description_id(alert_for(e)) == 70 <==> e == Error::BadVersion,
        description_id(alert_for(e)) == 109 <==> e == Error::MissingExtension,
        description_id(alert_for(e)) == 110 <==> e == Error::UnsolicitedExtension,
        description_id(alert_for(e)) == 116 <==> e == Error::ClientCertRequired,
        description_id(alert_for(e)) == 120 <==> e == Error::NoApplicationProtocol,
        description_id(alert_for(e)) == 80 <==> e == Error::HelloRetryRequest || e == Error::Sig || e == Error::Spki
            || e == Error::Rng || e == Error::Encode || e == Error::BadConfig || e == Error::NotReady,
{
}

/// Alerts have one code point each.
pub proof fn law_alert_ids_distinct(a: AlertDescription, b: AlertDescription)
    requires
        description_id(a) == description_id(b),
    ensures
        a == b,
{
}

/// Sealing goes from each number to the next, up to the last; what is too long, and what
/// the room that is given does not hold, is refused.
pub proof fn law_sealing_goes_on(seq: u64, n: nat, overhead: nat, room: nat)
    ensures
        n <= 16384 && seq < u64::MAX ==> seal_outcome(seq, n) == Ok::<u64, RecordError>((seq + 1) as u64),
        n <= 16384 && seq == u64::MAX ==> seal_outcome(seq, n) == Err::<u64, RecordError>(RecordError::SeqExhausted),
        n > 16384 ==> seal_outcome(seq, n) == Err::<u64, RecordError>(RecordError::BodyTooLarge),
        n > 16384 ==> slice_outcome(n, overhead, room) == Err::<usize, RecordError>(RecordError::BodyTooLarge),
        n <= 16384 && n + overhead > room ==> slice_outcome(n, overhead, room) == Err::<usize, RecordError>(
            RecordError::BufferTooSmall,
        ),
        n <= 16384 && n + overhead <= room ==> slice_outcome(n, overhead, room) == Ok::<usize, RecordError>(
            (n + overhead) as usize,
        ),
{
}

/// A log says of an event what it is and all of it that is no secret.
pub proof fn law_log_says_what_happened(e: EventView)
    ensures
        match e {
            EventView::Send { epoch, data } => loggable(e) == (Loggable::Send { epoch, data_len: data.len() as usize }),
            EventView::KeysReady { epoch, .. } => loggable(e) == (Loggable::KeysReady { epoch }),
            EventView::PeerExtension { ty, data } => loggable(e) == (Loggable::PeerExtension {
                ty,
                data_len: data.len() as usize,
            }),
            EventView::KeyUpdate { direction, .. } => loggable(e) == (Loggable::KeyUpdate { direction }),
            EventView::NewSessionTicket { ticket_lifetime, max_early_data, .. } => loggable(e) is NewSessionTicket
                && loggable(e)->ticket_lifetime == ticket_lifetime && loggable(e)->max_early_data == max_early_data,
            EventView::ResumptionSecret { .. } => loggable(e) is ResumptionSecret,
            EventView::ZeroRttKeysReady { .. } => loggable(e) is ZeroRttKeysReady,
            EventView::EarlyDataAccepted => loggable(e) is EarlyDataAccepted,
            EventView::EarlyDataRejected => loggable(e) is EarlyDataRejected,
            EventView::Done => loggable(e) is Done,
        },
{
}

} // verus!
