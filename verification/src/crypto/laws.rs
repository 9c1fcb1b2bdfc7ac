//! What keys are derived from, said of the authentication codes themselves.

use vstd::prelude::*;

use crate::codec::{be16, lemma_be16, lemma_vec_round_trip, vec8};
use crate::crypto::hash::{digest_of, hash_len, Algorithm};
use crate::crypto::kdf::{
    blocks_for, derived_secret, hkdf_block, hkdf_blocks, hkdf_expand, hkdf_expand_label, hkdf_label,
    hmac_of, label_bytes, next_traffic_secret, prefixed_label, zero_bytes, HkdfError,
};
use crate::crypto::schedule::{
    early_secret, early_traffic_secret, exported, handshake_secret, master_secret, ticket_psk,
    traffic_iv, traffic_key,
};
use crate::psk::{binder, finished_mac};

verus! {

/// "derived".
pub open spec fn derived_label() -> Seq<u8> {
    seq![0x64u8, 0x65, 0x72, 0x69, 0x76, 0x65, 0x64]
}

/// "c hs traffic".
pub open spec fn c_hs_label() -> Seq<u8> {
    seq![0x63u8, 0x20, 0x68, 0x73, 0x20, 0x74, 0x72, 0x61, 0x66, 0x66, 0x69, 0x63]
}

/// "s hs traffic".
pub open spec fn s_hs_label() -> Seq<u8> {
    seq![0x73u8, 0x20, 0x68, 0x73, 0x20, 0x74, 0x72, 0x61, 0x66, 0x66, 0x69, 0x63]
}

/// "c ap traffic".
pub open spec fn c_ap_label() -> Seq<u8> {
    seq![0x63u8, 0x20, 0x61, 0x70, 0x20, 0x74, 0x72, 0x61, 0x66, 0x66, 0x69, 0x63]
}

/// "s ap traffic".
pub open spec fn s_ap_label() -> Seq<u8> {
    seq![0x73u8, 0x20, 0x61, 0x70, 0x20, 0x74, 0x72, 0x61, 0x66, 0x66, 0x69, 0x63]
}

/// "c e traffic".
pub open spec fn c_e_label() -> Seq<u8> {
    seq![0x63u8, 0x20, 0x65, 0x20, 0x74, 0x72, 0x61, 0x66, 0x66, 0x69, 0x63]
}

/// "res master".
pub open spec fn res_master_label() -> Seq<u8> {
    seq![0x72u8, 0x65, 0x73, 0x20, 0x6d, 0x61, 0x73, 0x74, 0x65, 0x72]
}

/// "exp master".
pub open spec fn exp_master_label() -> Seq<u8> {
    seq![0x65u8, 0x78, 0x70, 0x20, 0x6d, 0x61, 0x73, 0x74, 0x65, 0x72]
}

/// "exporter".
pub open spec fn exporter_label() -> Seq<u8> {
    seq![0x65u8, 0x78, 0x70, 0x6f, 0x72, 0x74, 0x65, 0x72]
}

/// "resumption".
pub open spec fn resumption_label() -> Seq<u8> {
    seq![0x72u8, 0x65, 0x73, 0x75, 0x6d, 0x70, 0x74, 0x69, 0x6f, 0x6e]
}

/// "res binder".
pub open spec fn res_binder_label() -> Seq<u8> {
    seq![0x72u8, 0x65, 0x73, 0x20, 0x62, 0x69, 0x6e, 0x64, 0x65, 0x72]
}

/// "finished".
pub open spec fn finished_label() -> Seq<u8> {
    seq![0x66u8, 0x69, 0x6e, 0x69, 0x73, 0x68, 0x65, 0x64]
}

/// "key".
pub open spec fn key_label() -> Seq<u8> {
    seq![0x6bu8, 0x65, 0x79]
}

/// "iv".
pub open spec fn iv_label() -> Seq<u8> {
    seq![0x69u8, 0x76]
}

/// "traffic upd".
pub open spec fn traffic_upd_label() -> Seq<u8> {
    seq![0x74u8, 0x72, 0x61, 0x66, 0x66, 0x69, 0x63, 0x20, 0x75, 0x70, 0x64]
}

/// The labels of the key schedule, letter by letter.
pub proof fn lemma_labels()
    ensures
        label_bytes("derived") == derived_label(),
        label_bytes("c hs traffic") == c_hs_label(),
        label_bytes("s hs traffic") == s_hs_label(),
        label_bytes("c ap traffic") == c_ap_label(),
        label_bytes("s ap traffic") == s_ap_label(),
        label_bytes("c e traffic") == c_e_label(),
        label_bytes("res master") == res_master_label(),
        label_bytes("exp master") == exp_master_label(),
        label_bytes("exporter") == exporter_label(),
        label_bytes("resumption") == resumption_label(),
        label_bytes("res binder") == res_binder_label(),
        label_bytes("finished") == finished_label(),
        label_bytes("key") == key_label(),
        label_bytes("iv") == iv_label(),
        label_bytes("traffic upd") == traffic_upd_label(),
{
    reveal_strlit("derived");
    reveal_strlit("c hs traffic");
    reveal_strlit("s hs traffic");
    reveal_strlit("c ap traffic");
    reveal_strlit("s ap traffic");
    reveal_strlit("c e traffic");
    reveal_strlit("res master");
    reveal_strlit("exp master");
    reveal_strlit("exporter");
    reveal_strlit("resumption");
    reveal_strlit("res binder");
    reveal_strlit("finished");
    reveal_strlit("key");
    reveal_strlit("iv");
    reveal_strlit("traffic upd");
    broadcast use vstd::utf8::is_ascii_chars_encode_utf8;

    assert(vstd::utf8::is_ascii_chars("derived"@));
    assert(label_bytes("derived") =~= derived_label());
    assert(vstd::utf8::is_ascii_chars("c hs traffic"@));
    assert(label_bytes("c hs traffic") =~= c_hs_label());
    assert(vstd::utf8::is_ascii_chars("s hs traffic"@));
    assert(label_bytes("s hs traffic") =~= s_hs_label());
    assert(vstd::utf8::is_ascii_chars("c ap traffic"@));
    assert(label_bytes("c ap traffic") =~= c_ap_label());
    assert(vstd::utf8::is_ascii_chars("s ap traffic"@));
    assert(label_bytes("s ap traffic") =~= s_ap_label());
    assert(vstd::utf8::is_ascii_chars("c e traffic"@));
    assert(label_bytes("c e traffic") =~= c_e_label());
    assert(vstd::utf8::is_ascii_chars("res master"@));
    assert(label_bytes("res master") =~= res_master_label());
    assert(vstd::utf8::is_ascii_chars("exp master"@));
    assert(label_bytes("exp master") =~= exp_master_label());
    assert(vstd::utf8::is_ascii_chars("exporter"@));
    assert(label_bytes("exporter") =~= exporter_label());
    assert(vstd::utf8::is_ascii_chars("resumption"@));
    assert(label_bytes("resumption") =~= resumption_label());
    assert(vstd::utf8::is_ascii_chars("res binder"@));
    assert(label_bytes("res binder") =~= res_binder_label());
    assert(vstd::utf8::is_ascii_chars("finished"@));
    assert(label_bytes("finished") =~= finished_label());
    assert(vstd::utf8::is_ascii_chars("key"@));
    assert(label_bytes("key") =~= key_label());
    assert(vstd::utf8::is_ascii_chars("iv"@));
    assert(label_bytes("iv") =~= iv_label());
    assert(vstd::utf8::is_ascii_chars("traffic upd"@));
    assert(label_bytes("traffic upd") =~= traffic_upd_label());
}

/// What the code is made over when `len` bytes are derived for a label and a context:
/// the length in two bytes, "tls13 " and the label behind the length of both, and the
/// context behind its length.
pub open spec fn purpose(label: Seq<u8>, context: Seq<u8>, len: nat) -> Seq<u8> {
    seq![
        (len / 256) as u8,
        (len % 256) as u8,
        (label.len() + 6) as u8,
        0x74,
        0x6c,
        0x73,
        0x31,
        0x33,
        0x20,
    ] + label + seq![context.len() as u8] + context
}

/// The one code that a short key is cut from.
pub open spec fn code(alg: Algorithm, secret: Seq<u8>, label: Seq<u8>, context: Seq<u8>, len: nat) -> Seq<u8> {
    hmac_of(alg, secret, purpose(label, context, len) + seq![1u8]).take(len as int)
}

/// A key no longer than a code is the front of one code, over its length, its label
/// and its context.
pub proof fn law_short_key_is_one_code(alg: Algorithm, secret: Seq<u8>, label: Seq<u8>, context: Seq<u8>, len: nat)
    requires
        1 <= len <= hash_len(alg),
        label.len() <= 249,
        context.len() <= 255,
    ensures
        hkdf_expand_label(alg, secret, label, context, len) == Ok::<Seq<u8>, HkdfError>(
            code(alg, secret, label, context, len),
        ),
{
    let info = hkdf_label(label, context, len)->Ok_0;
    assert(info =~= purpose(label, context, len));
    assert(blocks_for(alg, len) == 1);
    assert(hkdf_blocks(alg, secret, info, 0) =~= Seq::empty());
    assert(hkdf_block(alg, secret, info, 0) =~= Seq::empty());
    let b = hkdf_block(alg, secret, info, 1);
    assert(Seq::<u8>::empty() + info + seq![1u8] =~= info + seq![1u8]);
    assert(b == hmac_of(alg, secret, info + seq![1u8]));
    assert(hkdf_blocks(alg, secret, info, 1) =~= b);
}

/// Two derivations are over the same bytes only if length, label and context are the
/// same.
pub proof fn law_purposes_differ(l1: Seq<u8>, c1: Seq<u8>, n1: nat, l2: Seq<u8>, c2: Seq<u8>, n2: nat)
    requires
        hkdf_label(l1, c1, n1) is Ok,
        hkdf_label(l1, c1, n1) == hkdf_label(l2, c2, n2),
    ensures
        l1 == l2,
        c1 == c2,
        n1 == n2,
{
    let s = hkdf_label(l1, c1, n1)->Ok_0;
    let a = vec8(prefixed_label(l1)) + vec8(c1);
    let b = vec8(prefixed_label(l2)) + vec8(c2);
    assert(s =~= be16(n1 as u16) + a);
    assert(s =~= be16(n2 as u16) + b);
    lemma_be16(n1 as u16, a);
    lemma_be16(n2 as u16, b);
    lemma_vec_round_trip(prefixed_label(l1), vec8(c1));
    lemma_vec_round_trip(prefixed_label(l2), vec8(c2));
    lemma_vec_round_trip(c1, Seq::empty());
    lemma_vec_round_trip(c2, Seq::empty());
    assert(vec8(c1) + Seq::<u8>::empty() =~= vec8(c1));
    assert(vec8(c2) + Seq::<u8>::empty() =~= vec8(c2));
    assert(prefixed_label(l1).skip(6) =~= l1);
    assert(prefixed_label(l2).skip(6) =~= l2);
}

/// The secrets of the key schedule: each stage is a code under what comes from the
/// stage before, and each secret is a code under its stage's secret, over its own
/// label and the hash of the messages so far.
pub proof fn law_key_schedule(alg: Algorithm, psk: Seq<u8>, dhe: Seq<u8>, secret: Seq<u8>, hash: Seq<u8>)
    requires
        hash.len() <= 255,
        digest_of(alg, Seq::empty()).len() <= 255,
    ensures
        early_secret(alg, psk) == hmac_of(alg, Seq::new(hash_len(alg), |i: int| 0u8), psk),
        handshake_secret(alg, secret, dhe) == hmac_of(
            alg,
            code(alg, secret, derived_label(), digest_of(alg, Seq::empty()), hash_len(alg)),
            dhe,
        ),
        master_secret(alg, secret) == hmac_of(
            alg,
            code(alg, secret, derived_label(), digest_of(alg, Seq::empty()), hash_len(alg)),
            Seq::new(hash_len(alg), |i: int| 0u8),
        ),
        derived_secret(alg, secret, label_bytes("c hs traffic"), hash) == Ok::<Seq<u8>, HkdfError>(
            code(alg, secret, c_hs_label(), hash, hash_len(alg)),
        ),
        derived_secret(alg, secret, label_bytes("s hs traffic"), hash) == Ok::<Seq<u8>, HkdfError>(
            code(alg, secret, s_hs_label(), hash, hash_len(alg)),
        ),
        derived_secret(alg, secret, label_bytes("c ap traffic"), hash) == Ok::<Seq<u8>, HkdfError>(
            code(alg, secret, c_ap_label(), hash, hash_len(alg)),
        ),
        derived_secret(alg, secret, label_bytes("s ap traffic"), hash) == Ok::<Seq<u8>, HkdfError>(
            code(alg, secret, s_ap_label(), hash, hash_len(alg)),
        ),
        derived_secret(alg, secret, label_bytes("exp master"), hash) == Ok::<Seq<u8>, HkdfError>(
            code(alg, secret, exp_master_label(), hash, hash_len(alg)),
        ),
        derived_secret(alg, secret, label_bytes("res master"), hash) == Ok::<Seq<u8>, HkdfError>(
            code(alg, secret, res_master_label(), hash, hash_len(alg)),
        ),
{
    lemma_labels();
    let z = zero_bytes(hash_len(alg));
    assert(z =~= Seq::new(hash_len(alg), |i: int| 0u8));
    law_short_key_is_one_code(alg, secret, derived_label(), digest_of(alg, Seq::empty()), hash_len(alg));
    law_short_key_is_one_code(alg, secret, c_hs_label(), hash, hash_len(alg));
    law_short_key_is_one_code(alg, secret, s_hs_label(), hash, hash_len(alg));
    law_short_key_is_one_code(alg, secret, c_ap_label(), hash, hash_len(alg));
    law_short_key_is_one_code(alg, secret, s_ap_label(), hash, hash_len(alg));
    law_short_key_is_one_code(alg, secret, exp_master_label(), hash, hash_len(alg));
    law_short_key_is_one_code(alg, secret, res_master_label(), hash, hash_len(alg));
}

/// What is exported is bound to the label and to the context both: it is expanded,
/// under a secret of the label, for "exporter" and the context's hash.
pub proof fn law_export_is_bound(
    alg: Algorithm,
    exporter_master: Seq<u8>,
    label: Seq<u8>,
    context: Seq<u8>,
    len: nat,
)
    requires
        label.len() <= 249,
        digest_of(alg, Seq::empty()).len() <= 255,
        digest_of(alg, context).len() <= 255,
    ensures
        len <= 0xffff ==> exported(alg, exporter_master, label, context, len) == hkdf_expand(
            alg,
            code(alg, exporter_master, label, digest_of(alg, Seq::empty()), hash_len(alg)),
            purpose(exporter_label(), digest_of(alg, context), len),
            len,
        ),
        1 <= len <= hash_len(alg) ==> exported(alg, exporter_master, label, context, len) == Ok::<
            Seq<u8>,
            HkdfError,
        >(
            code(
                alg,
                code(alg, exporter_master, label, digest_of(alg, Seq::empty()), hash_len(alg)),
                exporter_label(),
                digest_of(alg, context),
                len,
            ),
        ),
{
    lemma_labels();
    law_short_key_is_one_code(alg, exporter_master, label, digest_of(alg, Seq::empty()), hash_len(alg));
    let s = code(alg, exporter_master, label, digest_of(alg, Seq::empty()), hash_len(alg));
    if len <= 0xffff {
        let info = hkdf_label(exporter_label(), digest_of(alg, context), len)->Ok_0;
        assert(info =~= purpose(exporter_label(), digest_of(alg, context), len));
    }
    if 1 <= len <= hash_len(alg) {
        law_short_key_is_one_code(alg, s, exporter_label(), digest_of(alg, context), len);
    }
}

/// Keying material for two contexts is expanded for two purposes, unless the contexts
/// have one hash.
pub proof fn law_contexts_are_told_apart(alg: Algorithm, a: Seq<u8>, b: Seq<u8>, len: nat)
    requires
        len <= 0xffff,
        digest_of(alg, a).len() == digest_of(alg, b).len() <= 255,
        digest_of(alg, a) != digest_of(alg, b),
    ensures
        purpose(exporter_label(), digest_of(alg, a), len) != purpose(exporter_label(), digest_of(alg, b), len),
{
    let p = purpose(exporter_label(), digest_of(alg, a), len);
    let q = purpose(exporter_label(), digest_of(alg, b), len);
    assert(p.skip(18) =~= digest_of(alg, a));
    assert(q.skip(18) =~= digest_of(alg, b));
}

/// The next traffic secret, and the key and IV of one: codes under the secret itself,
/// for a label and no context.
pub proof fn law_traffic_keys(alg: Algorithm, secret: Seq<u8>, len: nat)
    requires
        1 <= len <= hash_len(alg),
    ensures
        next_traffic_secret(alg, secret) == code(alg, secret, traffic_upd_label(), Seq::empty(), hash_len(alg)),
        traffic_key(alg, secret, len) == Ok::<Seq<u8>, HkdfError>(
            code(alg, secret, key_label(), Seq::empty(), len),
        ),
        traffic_iv(alg, secret) == code(alg, secret, iv_label(), Seq::empty(), 12),
{
    lemma_labels();
    law_short_key_is_one_code(alg, secret, traffic_upd_label(), Seq::empty(), hash_len(alg));
    law_short_key_is_one_code(alg, secret, key_label(), Seq::empty(), len);
    law_short_key_is_one_code(alg, secret, iv_label(), Seq::empty(), 12);
}

/// A Finished message is a code over the hash of the messages, under a key of the
/// sender's traffic secret; a binder is one under a key that comes from the ticket's.
pub proof fn law_finished_is_a_code(alg: Algorithm, secret: Seq<u8>, hash: Seq<u8>)
    requires
        digest_of(Algorithm::Sha256, Seq::empty()).len() <= 255,
    ensures
        finished_mac(alg, secret, hash) == hmac_of(
            alg,
            code(alg, secret, finished_label(), Seq::empty(), hash_len(alg)),
            hash,
        ),
        binder(secret, hash) == hmac_of(
            Algorithm::Sha256,
            code(
                Algorithm::Sha256,
                code(
                    Algorithm::Sha256,
                    hmac_of(Algorithm::Sha256, Seq::new(32, |i: int| 0u8), secret),
                    res_binder_label(),
                    digest_of(Algorithm::Sha256, Seq::empty()),
                    32,
                ),
                finished_label(),
                Seq::empty(),
                32,
            ),
            hash,
        ),
{
    lemma_labels();
    let h = Algorithm::Sha256;
    assert(zero_bytes(32) =~= Seq::new(32, |i: int| 0u8));
    let early = hmac_of(h, Seq::new(32, |i: int| 0u8), secret);
    law_short_key_is_one_code(alg, secret, finished_label(), Seq::empty(), hash_len(alg));
    law_short_key_is_one_code(h, early, res_binder_label(), digest_of(h, Seq::empty()), 32);
    let key = code(h, early, res_binder_label(), digest_of(h, Seq::empty()), 32);
    law_short_key_is_one_code(h, key, finished_label(), Seq::empty(), 32);
}

/// The secret of early data and the key of a ticket.
pub proof fn law_resumption_keys(secret: Seq<u8>, hash: Seq<u8>)
    requires
        hash.len() <= 255,
    ensures
        early_traffic_secret(secret, hash) == Ok::<Seq<u8>, HkdfError>(
            code(
                Algorithm::Sha256,
                hmac_of(Algorithm::Sha256, Seq::new(32, |i: int| 0u8), secret),
                c_e_label(),
                hash,
                32,
            ),
        ),
        ticket_psk(secret, hash) == Ok::<Seq<u8>, HkdfError>(
            code(Algorithm::Sha256, secret, resumption_label(), hash, 32),
        ),
{
    lemma_labels();
    let h = Algorithm::Sha256;
    assert(zero_bytes(32) =~= Seq::new(32, |i: int| 0u8));
    let early = hmac_of(h, Seq::new(32, |i: int| 0u8), secret);
    law_short_key_is_one_code(h, early, c_e_label(), hash, 32);
    law_short_key_is_one_code(h, secret, resumption_label(), hash, 32);
}

/// Longer output: every block is a code over the block before it, the purpose and the
/// number of the block, counting from one; up to 255 blocks.
pub proof fn law_blocks_are_chained(alg: Algorithm, secret: Seq<u8>, info: Seq<u8>, len: nat, i: nat)
    requires
        forall|d: Seq<u8>| (#[trigger] hmac_of(alg, secret, d)).len() == hash_len(alg),
    ensures
        hkdf_expand(alg, secret, info, len) is Ok <==> len <= 255 * hash_len(alg),
        len <= 255 * hash_len(alg) ==> hkdf_expand(alg, secret, info, len)->Ok_0.len() == len,
        len <= 255 * hash_len(alg) && (i + 1) * hash_len(alg) <= len ==> {
            let out = hkdf_expand(alg, secret, info, len)->Ok_0;
            let n = hash_len(alg) as int;
            out.subrange(i * n, i * n + n) == hmac_of(
                alg,
                secret,
                (if i == 0 {
                    Seq::empty()
                } else {
                    out.subrange(i * n - n, i * n)
                }) + info + seq![(i + 1) as u8],
            )
        },
{
    let n = hash_len(alg);
    let k = blocks_for(alg, len);
    assert(k <= 255 <==> len <= 255 * n) by {
        if alg == Algorithm::Sha256 {
            assert(n == 32);
        } else {
            assert(n == 48);
        }
    }
    assert(k * n >= len && (k > 0 ==> (k - 1) * n < len)) by {
        if alg == Algorithm::Sha256 {
            assert(n == 32);
        } else {
            assert(n == 48);
        }
    }
    lemma_blocks(alg, secret, info, k);
    if len <= 255 * n && (i + 1) * n <= len {
        let all = hkdf_blocks(alg, secret, info, k);
        let out = hkdf_expand(alg, secret, info, len)->Ok_0;
        assert(i + 1 <= k) by (nonlinear_arith)
            requires
                (i + 1) * n <= len,
                k * n >= len,
                n > 0,
        ;
        assert(i * n + n == (i + 1) * n) by (nonlinear_arith);
        lemma_block_in(alg, secret, info, k, i + 1);
        assert(out.subrange((i * n) as int, (i * n + n) as int) =~= all.subrange((i * n) as int, (i * n + n) as int));
        if i > 0 {
            assert((i - 1) * n + n == i * n) by (nonlinear_arith);
            lemma_block_in(alg, secret, info, k, i);
            assert(i * n - n >= 0) by (nonlinear_arith)
                requires
                    i > 0,
                    n > 0,
            ;
            assert(out.subrange(i * n - n, (i * n) as int) =~= all.subrange(i * n - n, (i * n) as int));
            assert(out.subrange(i * n - n, (i * n) as int) == hkdf_block(alg, secret, info, i));
        } else {
            assert(hkdf_block(alg, secret, info, 0) =~= Seq::empty());
        }
        assert((i + 1 - 1) as nat == i);
        assert(hkdf_block(alg, secret, info, i + 1) == hmac_of(
            alg,
            secret,
            hkdf_block(alg, secret, info, i) + info + seq![(i + 1) as u8],
        ));
        assert(i * (n as int) == i * n);
        assert(out.subrange((i * n) as int, (i * n + n) as int) == hkdf_block(alg, secret, info, i + 1));
    }
}

proof fn lemma_blocks(alg: Algorithm, secret: Seq<u8>, info: Seq<u8>, k: nat)
    requires
        forall|d: Seq<u8>| (#[trigger] hmac_of(alg, secret, d)).len() == hash_len(alg),
    ensures
        hkdf_blocks(alg, secret, info, k).len() == k * hash_len(alg),
    decreases k,
{
    if k > 0 {
        lemma_blocks(alg, secret, info, (k - 1) as nat);
        assert((k - 1) * hash_len(alg) + hash_len(alg) == k * hash_len(alg)) by (nonlinear_arith);
    }
}

proof fn lemma_block_in(alg: Algorithm, secret: Seq<u8>, info: Seq<u8>, k: nat, j: nat)
    requires
        forall|d: Seq<u8>| (#[trigger] hmac_of(alg, secret, d)).len() == hash_len(alg),
        1 <= j <= k,
    ensures
        (j - 1) * hash_len(alg) >= 0,
        j * hash_len(alg) <= hkdf_blocks(alg, secret, info, k).len(),
        hkdf_blocks(alg, secret, info, k).subrange((j - 1) * hash_len(alg), (j * hash_len(alg)) as int) == hkdf_block(
            alg,
            secret,
            info,
            j,
        ),
    decreases k,
{
    let n = hash_len(alg);
    lemma_blocks(alg, secret, info, k);
    lemma_blocks(alg, secret, info, (k - 1) as nat);
    let all = hkdf_blocks(alg, secret, info, k);
    let init = hkdf_blocks(alg, secret, info, (k - 1) as nat);
    assert((j - 1) * n >= 0 && j * n <= k * n && (k - 1) * n + n == k * n && (j - 1) * n + n == j * n)
        by (nonlinear_arith)
        requires
            1 <= j <= k,
            n > 0,
    ;
    if j < k {
        lemma_block_in(alg, secret, info, (k - 1) as nat, j);
        assert(j * n <= (k - 1) * n) by (nonlinear_arith)
            requires
                j < k,
                n > 0,
        ;
        assert(all.subrange((j - 1) * n, (j * n) as int) =~= init.subrange((j - 1) * n, (j * n) as int));
    } else {
        assert(all.subrange((j - 1) * n, (j * n) as int) =~= hkdf_block(alg, secret, info, j));
    }
}

} // verus!
