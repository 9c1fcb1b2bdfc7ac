//! The TLS 1.3 key schedule: early, handshake and master secret, and the secrets
//! derived from each.

use vstd::prelude::*;

use crate::crypto::hash::{
    digest_of, hash_len, hashable, wipe, Algorithm, Secret, Transcript, SHA256_LEN,
};
use crate::crypto::kdf::{
    derived_secret, hkdf_expand_label, hmac_of, label_bytes, lemma_derives, lemma_label_lengths,
    zero_bytes, zeros, Hkdf, HkdfError,
};
use crate::crypto::material::{
    ExporterMasterSecret, ResumptionMasterSecret, ResumptionPsk, TrafficSecret,
};

verus! {

/// The hash that resumption keys are tied to: they are always 32 bytes long, so
/// SHA-384 sessions are not resumable.
pub open spec fn resumption_hash() -> Algorithm {
    Algorithm::Sha256
}

/// The early secret under a pre-shared key.
pub open spec fn early_secret(alg: Algorithm, psk: Seq<u8>) -> Seq<u8> {
    hmac_of(alg, zero_bytes(hash_len(alg)), psk)
}

/// The salt of the stage that follows `secret`.
pub open spec fn next_salt(alg: Algorithm, secret: Seq<u8>) -> Seq<u8> {
    derived_secret(alg, secret, label_bytes("derived"), digest_of(alg, Seq::empty()))->Ok_0
}

/// The handshake secret that follows an early secret.
pub open spec fn handshake_secret(alg: Algorithm, early: Seq<u8>, dhe: Seq<u8>) -> Seq<u8> {
    hmac_of(alg, next_salt(alg, early), dhe)
}

/// The master secret that follows a handshake secret.
pub open spec fn master_secret(alg: Algorithm, handshake: Seq<u8>) -> Seq<u8> {
    hmac_of(alg, next_salt(alg, handshake), zero_bytes(hash_len(alg)))
}

/// The keying material exported under a label and a context.
pub open spec fn exported(
    alg: Algorithm,
    exporter_master: Seq<u8>,
    label: Seq<u8>,
    context: Seq<u8>,
    len: nat,
) -> Result<Seq<u8>, HkdfError> {
    match derived_secret(alg, exporter_master, label, digest_of(alg, Seq::empty())) {
        Ok(secret) => hkdf_expand_label(
            alg,
            secret,
            label_bytes("exporter"),
            digest_of(alg, context),
            len,
        ),
        Err(e) => Err(e),
    }
}

/// The secret that protects 0-RTT data under a pre-shared key.
pub open spec fn early_traffic_secret(psk: Seq<u8>, transcript_hash: Seq<u8>) -> Result<
    Seq<u8>,
    HkdfError,
> {
    derived_secret(
        resumption_hash(),
        early_secret(resumption_hash(), psk),
        label_bytes("c e traffic"),
        transcript_hash,
    )
}

/// The pre-shared key of a ticket with nonce `nonce`.
pub open spec fn ticket_psk(resumption_master: Seq<u8>, nonce: Seq<u8>) -> Result<Seq<u8>, HkdfError> {
    hkdf_expand_label(resumption_hash(), resumption_master, label_bytes("resumption"), nonce, 32)
}

/// One stage of the key schedule.
pub struct Schedule {
    alg: Algorithm,
    secret: Secret,
}

/// The hash of the schedule and the secret of its stage.
pub struct ScheduleView {
    pub alg: Algorithm,
    pub secret: Seq<u8>,
}

impl View for Schedule {
    type V = ScheduleView;

    closed spec fn view(&self) -> ScheduleView {
        ScheduleView { alg: self.alg, secret: self.secret@ }
    }
}

impl Schedule {
    /// The early stage without a pre-shared key.
    pub fn new(alg: Algorithm) -> (r: Self)
        ensures
            r@.alg == alg,
            r@.secret == early_secret(alg, zero_bytes(hash_len(alg))),
    {
        let z = zeros(alg.output_len());
        Self { alg, secret: Hkdf::new(alg).extract(z.as_slice(), z.as_slice()) }
    }

    /// The early stage under a pre-shared key.
    pub fn new_psk(alg: Algorithm, psk: &[u8]) -> (r: Self)
        requires
            hashable(psk@),
        ensures
            r@.alg == alg,
            r@.secret == early_secret(alg, psk@),
    {
        let z = zeros(alg.output_len());
        Self { alg, secret: Hkdf::new(alg).extract(z.as_slice(), psk) }
    }

    /// The hash of the schedule.
    pub fn hash_alg(&self) -> (r: Algorithm)
        ensures
            r == self@.alg,
    {
        self.alg
    }

    fn salt(&self) -> (r: Result<Secret, HkdfError>)
        ensures
            r is Ok,
            r->Ok_0@ == next_salt(self@.alg, self@.secret),
    {
        let empty = Transcript::hash_empty(self.alg);
        proof {
            lemma_label_lengths();
            lemma_derives(self.alg, self.secret@, label_bytes("derived"), empty@);
        }
        Hkdf::new(self.alg).derive_secret(self.secret.as_slice(), "derived", empty.as_slice())
    }

    /// The handshake stage, under the key exchange's shared secret.
    pub fn into_handshake(self, dhe: &[u8]) -> (r: Result<Self, HkdfError>)
        requires
            hashable(dhe@),
        ensures
            r is Ok,
            r->Ok_0@ == (ScheduleView {
                alg: self@.alg,
                secret: handshake_secret(self@.alg, self@.secret, dhe@),
            }),
    {
        let derived = self.salt()?;
        Ok(Self { alg: self.alg, secret: Hkdf::new(self.alg).extract(derived.as_slice(), dhe) })
    }

    /// The master stage.
    pub fn into_master(self) -> (r: Result<Self, HkdfError>)
        ensures
            r is Ok,
            r->Ok_0@ == (ScheduleView {
                alg: self@.alg,
                secret: master_secret(self@.alg, self@.secret),
            }),
    {
        let derived = self.salt()?;
        let z = zeros(self.alg.output_len());
        Ok(
            Self {
                alg: self.alg,
                secret: Hkdf::new(self.alg).extract(derived.as_slice(), z.as_slice()),
            },
        )
    }

    /// The secret of this stage.
    pub fn secret(&self) -> (r: &Secret)
        ensures
            r@ == self@.secret,
    {
        &self.secret
    }

    fn derive(&self, label: &str, transcript_hash: &[u8]) -> (r: Result<Secret, HkdfError>)
        ensures
            match derived_secret(self@.alg, self@.secret, label_bytes(label), transcript_hash@) {
                Ok(s) => r is Ok && r->Ok_0@ == s && s.len() == hash_len(self@.alg),
                Err(e) => r is Err && r->Err_0 == e,
            },
    {
        Hkdf::new(self.alg).derive_secret(self.secret.as_slice(), label, transcript_hash)
    }

    /// The secret that protects the client's handshake messages.
    pub fn client_handshake_traffic_secret(&self, transcript_hash: &[u8]) -> (r: Result<
        TrafficSecret,
        HkdfError,
    >)
        ensures
            match derived_secret(
                self@.alg,
                self@.secret,
                label_bytes("c hs traffic"),
                transcript_hash@,
            ) {
                Ok(s) => r is Ok && r->Ok_0@ == s && s.len() == hash_len(self@.alg),
                Err(e) => r is Err && r->Err_0 == e,
            },
    {
        let secret = self.derive("c hs traffic", transcript_hash)?;
        Ok(TrafficSecret::from_secret(secret))
    }

    /// The secret that protects the server's handshake messages.
    pub fn server_handshake_traffic_secret(&self, transcript_hash: &[u8]) -> (r: Result<
        TrafficSecret,
        HkdfError,
    >)
        ensures
            match derived_secret(
                self@.alg,
                self@.secret,
                label_bytes("s hs traffic"),
                transcript_hash@,
            ) {
                Ok(s) => r is Ok && r->Ok_0@ == s && s.len() == hash_len(self@.alg),
                Err(e) => r is Err && r->Err_0 == e,
            },
    {
        let secret = self.derive("s hs traffic", transcript_hash)?;
        Ok(TrafficSecret::from_secret(secret))
    }

    /// The secret that protects the client's application data.
    pub fn client_application_traffic_secret(&self, transcript_hash: &[u8]) -> (r: Result<
        TrafficSecret,
        HkdfError,
    >)
        ensures
            match derived_secret(
                self@.alg,
                self@.secret,
                label_bytes("c ap traffic"),
                transcript_hash@,
            ) {
                Ok(s) => r is Ok && r->Ok_0@ == s && s.len() == hash_len(self@.alg),
                Err(e) => r is Err && r->Err_0 == e,
            },
    {
        let secret = self.derive("c ap traffic", transcript_hash)?;
        Ok(TrafficSecret::from_secret(secret))
    }

    /// The secret that protects the server's application data.
    pub fn server_application_traffic_secret(&self, transcript_hash: &[u8]) -> (r: Result<
        TrafficSecret,
        HkdfError,
    >)
        ensures
            match derived_secret(
                self@.alg,
                self@.secret,
                label_bytes("s ap traffic"),
                transcript_hash@,
            ) {
                Ok(s) => r is Ok && r->Ok_0@ == s && s.len() == hash_len(self@.alg),
                Err(e) => r is Err && r->Err_0 == e,
            },
    {
        let secret = self.derive("s ap traffic", transcript_hash)?;
        Ok(TrafficSecret::from_secret(secret))
    }

    /// The secret that tickets' keys come from.
    pub fn resumption_master_secret(&self, transcript_hash: &[u8]) -> (r: Result<
        ResumptionMasterSecret,
        HkdfError,
    >)
        ensures
            match derived_secret(
                self@.alg,
                self@.secret,
                label_bytes("res master"),
                transcript_hash@,
            ) {
                Ok(s) => r is Ok && r->Ok_0@ == s && s.len() == hash_len(self@.alg),
                Err(e) => r is Err && r->Err_0 == e,
            },
    {
        let secret = self.derive("res master", transcript_hash)?;
        Ok(ResumptionMasterSecret::from_secret(secret))
    }

    /// `exporter_master_secret`, derived from the master secret over the
    /// transcript through the server Finished.
    pub fn exporter_master_secret(&self, transcript_hash: &[u8]) -> (r: Result<
        ExporterMasterSecret,
        HkdfError,
    >)
        ensures
            match derived_secret(
                self@.alg,
                self@.secret,
                label_bytes("exp master"),
                transcript_hash@,
            ) {
                Ok(s) => r is Ok && r->Ok_0@ == s && s.len() == hash_len(self@.alg),
                Err(e) => r is Err && r->Err_0 == e,
            },
    {
        let secret = self.derive("exp master", transcript_hash)?;
        Ok(ExporterMasterSecret::from_secret(secret))
    }

    /// Fills `out` with keying material for a label and a context.
    pub fn export_keying_material(
        alg: Algorithm,
        exporter_master: &[u8],
        label: &str,
        context: &[u8],
        out: &mut [u8],
    ) -> (r: Result<(), HkdfError>)
        requires
            hashable(exporter_master@),
            hashable(context@),
        ensures
            match exported(alg, exporter_master@, label_bytes(label), context@, old(out)@.len()) {
                Ok(okm) => r is Ok && final(out)@ == okm,
                Err(e) => r is Err && r->Err_0 == e && final(out)@ == old(out)@,
            },
    {
        let hkdf = Hkdf::new(alg);
        let empty = Transcript::hash_empty(alg);
        let secret = hkdf.derive_secret(exporter_master, label, empty.as_slice())?;
        let context_hash = alg.hash(context);
        hkdf.expand_label(secret.as_slice(), "exporter", context_hash.as_slice(), out)
    }

    /// The secret that protects 0-RTT data under a pre-shared key.
    pub fn client_early_traffic_secret(psk: &[u8], transcript_hash: &[u8]) -> (r: Result<
        TrafficSecret,
        HkdfError,
    >)
        requires
            hashable(psk@),
        ensures
            match early_traffic_secret(psk@, transcript_hash@) {
                Ok(s) => r is Ok && r->Ok_0@ == s && s.len() == 32,
                Err(e) => r is Err && r->Err_0 == e,
            },
    {
        let zero = zeros(SHA256_LEN);
        let hkdf = Hkdf::new(Algorithm::Sha256);
        let early = hkdf.extract(zero.as_slice(), psk);
        let secret = hkdf.derive_secret(early.as_slice(), "c e traffic", transcript_hash)?;
        Ok(TrafficSecret::from_secret(secret))
    }
}

/// The resumption secret of a connection, as the source of its tickets' keys.
pub struct ResumptionMaster<'a>(&'a ResumptionMasterSecret);

impl<'a> View for ResumptionMaster<'a> {
    type V = Seq<u8>;

    closed spec fn view(&self) -> Seq<u8> {
        self.0@
    }
}

impl<'a> ResumptionMaster<'a> {
    /// Borrows a connection's resumption secret.
    pub fn from_secret(secret: &'a ResumptionMasterSecret) -> (r: Self)
        ensures
            r@ == secret@,
    {
        Self(secret)
    }

    /// The pre-shared key of a ticket with nonce `nonce`.
    pub fn psk(&self, nonce: &[u8]) -> (r: Result<ResumptionPsk, HkdfError>)
        ensures
            match ticket_psk(self@, nonce@) {
                Ok(s) => r is Ok && r->Ok_0@ == s && s.len() == 32,
                Err(e) => r is Err && r->Err_0 == e,
            },
    {
        let mut out: [u8; SHA256_LEN] = [0u8; SHA256_LEN];
        let filled: &mut [u8] = &mut out;
        let done = Hkdf::new(Algorithm::Sha256).expand_label(
            self.0.as_slice(),
            "resumption",
            nonce,
            filled,
        );
        match done {
            Ok(()) => Ok(ResumptionPsk::new(out)),
            Err(e) => Err(e),
        }
    }
}

/// A record protection key and IV.
pub struct TrafficKeys<const K: usize> {
    pub key: [u8; K],
    pub iv: [u8; 12],
}

impl<const K: usize> Drop for TrafficKeys<K> {
    fn drop(&mut self)
        opens_invariants none
        no_unwind
    {
        let key: &mut [u8] = &mut self.key;
        wipe(key);
        let iv: &mut [u8] = &mut self.iv;
        wipe(iv);
    }
}

/// The record protection key of `len` bytes that comes from a traffic secret.
pub open spec fn traffic_key(alg: Algorithm, secret: Seq<u8>, len: nat) -> Result<Seq<u8>, HkdfError> {
    hkdf_expand_label(alg, secret, label_bytes("key"), Seq::empty(), len)
}

/// The IV that comes from a traffic secret.
pub open spec fn traffic_iv(alg: Algorithm, secret: Seq<u8>) -> Seq<u8> {
    hkdf_expand_label(alg, secret, label_bytes("iv"), Seq::empty(), 12)->Ok_0
}

impl<const K: usize> TrafficKeys<K> {
    /// The key and IV that come from a traffic secret.
    pub fn derive(alg: Algorithm, secret: &[u8]) -> (r: Result<Self, HkdfError>)
        requires
            hashable(secret@),
        ensures
            match traffic_key(alg, secret@, K as nat) {
                Ok(key) => r is Ok && r->Ok_0.key@ == key && r->Ok_0.iv@ == traffic_iv(alg, secret@),
                Err(e) => r is Err && r->Err_0 == e,
            },
    {
        let none: [u8; 0] = [];
        assert(none@ =~= Seq::<u8>::empty());
        proof {
            lemma_label_lengths();
        }
        let mut key: [u8; K] = vstd::array::array_fill_for_copy_types(0u8);
        let mut iv: [u8; 12] = [0u8; 12];
        let hkdf = Hkdf::new(alg);
        let key_out: &mut [u8] = &mut key;
        hkdf.expand_label(secret, "key", &none, key_out)?;
        let iv_out: &mut [u8] = &mut iv;
        hkdf.expand_label(secret, "iv", &none, iv_out)?;
        Ok(Self { key, iv })
    }
}

} // verus!
