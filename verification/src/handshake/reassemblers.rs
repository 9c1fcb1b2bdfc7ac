//! Handshake messages out of records that split or join them.

use vstd::prelude::*;
use vstd::slice::slice_subrange;

use crate::codec::{from_be24, put_slice, to_vec, DecodeError, Reader};
use crate::handshake::{get_handshake, Handshake, HandshakeView, MAX_HANDSHAKE_SIZE, MAX_KEY_UPDATES_PER_RECORD};
use crate::{Epoch, Error};

verus! {

/// Saturating peer-triggered KeyUpdate allowance, reset at a progress boundary.
pub struct KeyUpdateBudget<const LIMIT: u32> {
    pub used: u32,
}

impl<const LIMIT: u32> KeyUpdateBudget<LIMIT> {
    /// A whole allowance.
    pub fn new() -> (r: Self)
        ensures
            r.used == 0,
    {
        Self { used: 0 }
    }

    /// Takes one KeyUpdate off the allowance, where any is left.
    pub fn consume(&mut self) -> (r: bool)
        ensures
            r == (old(self).used < LIMIT),
            final(self).used == if r { old(self).used + 1 } else { old(self).used as int },
    {
        if self.used >= LIMIT {
            return false;
        }
        self.used = self.used + 1;
        true
    }

    /// Makes the allowance whole again.
    pub fn reset(&mut self)
        ensures
            final(self).used == 0,
    {
        self.used = 0;
    }
}

impl<const LIMIT: u32> Default for KeyUpdateBudget<LIMIT> {
    fn default() -> (r: Self)
        ensures
            r.used == 0,
    {
        Self::new()
    }
}

/// Reassembles fragmented or coalesced handshake messages with their transcript
/// bytes; a message may not cross record epochs.
pub struct HsReassembler {
    buf: Vec<u8>,
    pos: usize,
    epoch: Option<Epoch>,
    key_updates: KeyUpdateBudget<MAX_KEY_UPDATES_PER_RECORD>,
}

/// What a reassembler holds: the bytes not yet decoded, the epoch of the last
/// record, and how many KeyUpdates were decoded since.
pub struct ReassemblerView {
    pub pending: Seq<u8>,
    pub epoch: Option<Epoch>,
    pub key_updates: u32,
}

impl View for HsReassembler {
    type V = ReassemblerView;

    closed spec fn view(&self) -> ReassemblerView {
        ReassemblerView {
            pending: self.buf@.skip(self.pos as int),
            epoch: self.epoch,
            key_updates: self.key_updates.used,
        }
    }
}

/// What taking the next message off `s` gives: the message and its bytes, nothing
/// while it is incomplete, or an error.
pub open spec fn next_outcome(s: ReassemblerView) -> Result<Option<(HandshakeView, Seq<u8>)>, Error> {
    let p = s.pending;
    if p.len() < 4 {
        Ok(None)
    } else {
        let len = 4 + from_be24(p.skip(1));
        if len > MAX_HANDSHAKE_SIZE {
            Err(Error::Decode)
        } else if p.len() < len {
            Ok(None)
        } else {
            match get_handshake(p.take(len)) {
                Err(_) => Err(Error::Decode),
                Ok((m, rest)) => if rest.len() > 0 {
                    Err(Error::Decode)
                } else if m is KeyUpdate && s.key_updates >= MAX_KEY_UPDATES_PER_RECORD {
                    Err(Error::UnexpectedMessage)
                } else {
                    Ok(Some((m, p.take(len))))
                },
            }
        }
    }
}

/// What is left after taking the next message off `s`: a complete message leaves
/// the buffer whether it decodes or not, and a KeyUpdate counts.
pub open spec fn after_next(s: ReassemblerView) -> ReassemblerView {
    let p = s.pending;
    if p.len() < 4 {
        s
    } else {
        let len = 4 + from_be24(p.skip(1));
        if len > MAX_HANDSHAKE_SIZE || p.len() < len {
            s
        } else {
            ReassemblerView {
                pending: p.skip(len),
                epoch: s.epoch,
                key_updates: if next_outcome(s) matches Ok(Some((m, _))) && m is KeyUpdate {
                    (s.key_updates + 1) as u32
                } else {
                    s.key_updates
                },
            }
        }
    }
}

impl HsReassembler {
    #[verifier::type_invariant]
    spec fn valid(self) -> bool {
        &&& self.pos <= self.buf@.len()
        &&& self.key_updates.used <= MAX_KEY_UPDATES_PER_RECORD
    }

    /// A reassembler that holds nothing.
    pub fn new() -> (r: Self)
        ensures
            r@ == (ReassemblerView { pending: Seq::empty(), epoch: None, key_updates: 0 }),
    {
        let r = Self { buf: Vec::new(), pos: 0, epoch: None, key_updates: KeyUpdateBudget::new() };
        assert(r@.pending =~= Seq::empty());
        r
    }

    /// Appends one record after compacting bytes consumed from prior records. A
    /// message begun in one epoch cannot go on in another.
    pub fn push(&mut self, epoch: Epoch, data: &[u8]) -> (r: Result<(), DecodeError>)
        ensures
            old(self)@.pending.len() > 0 && old(self)@.epoch != Some(epoch) ==> {
                &&& r == Err::<(), DecodeError>(DecodeError::HandshakeSpansEpoch)
                &&& final(self)@ == old(self)@
            },
            !(old(self)@.pending.len() > 0 && old(self)@.epoch != Some(epoch)) ==> {
                &&& r is Ok
                &&& final(self)@ == (ReassemblerView {
                    pending: old(self)@.pending + data@,
                    epoch: Some(epoch),
                    key_updates: 0,
                })
            },
    {
        proof {
            use_type_invariant(&*self);
        }
        let mut rest = to_vec(slice_subrange(self.buf.as_slice(), self.pos, self.buf.len()));
        assert(rest@ =~= self@.pending);
        let spans = rest.len() > 0 && match self.epoch {
            Some(e) => e != epoch,
            None => true,
        };
        if spans {
            let kept = self.epoch;
            let used: u32 = self.key_updates.used;
            *self = Self { buf: rest, pos: 0, epoch: kept, key_updates: KeyUpdateBudget { used } };
            assert(self@.pending =~= old(self)@.pending);
            return Err(DecodeError::HandshakeSpansEpoch);
        }
        put_slice(&mut rest, data);
        *self = Self {
            buf: rest,
            pos: 0,
            epoch: Some(epoch),
            key_updates: KeyUpdateBudget::new(),
        };
        assert(self@.pending =~= old(self)@.pending + data@);
        Ok(())
    }

    /// Decodes the next complete message and retains any remaining bytes.
    pub fn next_message(&mut self) -> (r: Result<Option<(Handshake, Vec<u8>)>, Error>)
        ensures
            match next_outcome(old(self)@) {
                Ok(Some((m, raw))) => r matches Ok(Some((msg, bytes))) && msg@ == m && bytes@ == raw,
                Ok(None) => r matches Ok(None),
                Err(e) => r is Err && r->Err_0 == e,
            },
            final(self)@ == after_next(old(self)@),
    {
        proof {
            use_type_invariant(&*self);
        }
        let left: usize = self.buf.len() - self.pos;
        if left < 4 {
            return Ok(None);
        }
        let b1: u8 = self.buf[self.pos + 1];
        let b2: u8 = self.buf[self.pos + 2];
        let b3: u8 = self.buf[self.pos + 3];
        let len: usize = 4 + (b1 as usize * 65536 + b2 as usize * 256 + b3 as usize);
        assert(len == 4 + from_be24(self@.pending.skip(1)));
        if len > MAX_HANDSHAKE_SIZE {
            return Err(Error::from(DecodeError::HandshakeTooLarge));
        }
        if left < len {
            return Ok(None);
        }
        let raw = to_vec(slice_subrange(self.buf.as_slice(), self.pos, self.pos + len));
        assert(raw@ =~= self@.pending.take(len as int));
        self.pos = self.pos + len;
        assert(self@.pending =~= old(self)@.pending.skip(len as int));
        let mut reader = Reader::new(raw.as_slice());
        let message = match Handshake::decode(&mut reader) {
            Ok(m) => m,
            Err(e) => return Err(Error::from(e)),
        };
        match reader.finish() {
            Ok(()) => {},
            Err(e) => return Err(Error::from(e)),
        }
        if let Handshake::KeyUpdate(_) = message {
            let used: u32 = self.key_updates.used;
            let mut budget = KeyUpdateBudget::<MAX_KEY_UPDATES_PER_RECORD> { used };
            if !budget.consume() {
                return Err(Error::UnexpectedMessage);
            }
            self.key_updates = budget;
        }
        Ok(Some((message, raw)))
    }
}

impl Default for HsReassembler {
    fn default() -> (r: Self)
        ensures
            r@ == (ReassemblerView { pending: Seq::empty(), epoch: None, key_updates: 0 }),
    {
        Self::new()
    }
}

/// However the wire form of a message is split over two records of one epoch,
/// the message comes out whole, and what follows it stays.
pub proof fn law_fragmentation(m: HandshakeView, rest: Seq<u8>, epoch: Epoch)
    requires
        m.fits(),
        m.acceptable(),
        m.bytes().len() <= MAX_HANDSHAKE_SIZE,
    ensures
        next_outcome(
            ReassemblerView { pending: m.bytes() + rest, epoch: Some(epoch), key_updates: 0 },
        ) == Ok::<Option<(HandshakeView, Seq<u8>)>, Error>(Some((m, m.bytes()))),
        after_next(
            ReassemblerView { pending: m.bytes() + rest, epoch: Some(epoch), key_updates: 0 },
        ).pending == rest,
        forall|cut: int|
            0 <= cut < m.bytes().len() ==> next_outcome(
                ReassemblerView {
                    pending: #[trigger] m.bytes().take(cut),
                    epoch: Some(epoch),
                    key_updates: 0,
                },
            ) == Ok::<Option<(HandshakeView, Seq<u8>)>, Error>(None),
{
    let p = m.bytes() + rest;
    let body = m.body();
    crate::codec::lemma_be24(body.len() as u32, body + rest);
    assert(p.skip(1) =~= crate::codec::be24(body.len() as u32) + (body + rest));
    let len = 4 + from_be24(p.skip(1));
    assert(len == m.bytes().len());
    assert(p.take(len) =~= m.bytes() + Seq::<u8>::empty());
    crate::handshake::law_handshake_round_trip(m, Seq::empty());
    assert(m.bytes() + Seq::<u8>::empty() =~= m.bytes());
    assert(p.skip(len) =~= rest);
    assert forall|cut: int| 0 <= cut < m.bytes().len() implies next_outcome(
        ReassemblerView {
            pending: #[trigger] m.bytes().take(cut),
            epoch: Some(epoch),
            key_updates: 0,
        },
    ) == Ok::<Option<(HandshakeView, Seq<u8>)>, Error>(None) by {
        let q = m.bytes().take(cut);
        if cut >= 4 {
            assert(q.skip(1)[0] == p.skip(1)[0] && q.skip(1)[1] == p.skip(1)[1] && q.skip(1)[2]
                == p.skip(1)[2]);
            assert(from_be24(q.skip(1)) == from_be24(p.skip(1)));
        }
    }
}

/// Whether bytes are the start of a message that is not complete.
pub open spec fn incomplete(s: Seq<u8>) -> bool {
    s.len() < 4 || s.len() < 4 + from_be24(s.skip(1)) <= MAX_HANDSHAKE_SIZE
}

/// The messages that come out, with their bytes, until one is incomplete or cannot be
/// taken, and what is left then.
pub open spec fn drained(s: ReassemblerView) -> (
    Seq<(HandshakeView, Seq<u8>)>,
    Result<ReassemblerView, Error>,
)
    decreases s.pending.len(),
{
    match next_outcome(s) {
        Ok(None) => (Seq::empty(), Ok(s)),
        Err(e) => (Seq::empty(), Err(e)),
        Ok(Some(x)) => {
            let (out, left) = drained(after_next(s));
            (seq![x] + out, left)
        },
    }
}

/// What comes out of records of one epoch, where everything that is complete is taken
/// out after each.
pub open spec fn fed(s: ReassemblerView, epoch: Epoch, records: Seq<Seq<u8>>) -> (
    Seq<(HandshakeView, Seq<u8>)>,
    Result<ReassemblerView, Error>,
)
    decreases records.len(),
{
    if records.len() == 0 {
        (Seq::empty(), Ok(s))
    } else {
        let pushed = ReassemblerView {
            pending: s.pending + records[0],
            epoch: Some(epoch),
            key_updates: 0,
        };
        match drained(pushed) {
            (out, Err(e)) => (out, Err(e)),
            (out, Ok(left)) => {
                let (more, end) = fed(left, epoch, records.skip(1));
                (out + more, end)
            },
        }
    }
}

/// The bytes of messages, one behind another.
pub open spec fn all_bytes(l: Seq<HandshakeView>) -> Seq<u8>
    decreases l.len(),
{
    if l.len() == 0 {
        Seq::empty()
    } else {
        l[0].bytes() + all_bytes(l.skip(1))
    }
}

/// How many of the messages are KeyUpdates.
pub open spec fn key_updates_in(l: Seq<HandshakeView>) -> nat
    decreases l.len(),
{
    if l.len() == 0 {
        0
    } else {
        key_updates_in(l.skip(1)) + if l[0] is KeyUpdate {
            1nat
        } else {
            0nat
        }
    }
}

/// Messages with their bytes.
pub open spec fn with_bytes(l: Seq<HandshakeView>) -> Seq<(HandshakeView, Seq<u8>)> {
    l.map_values(|m: HandshakeView| (m, m.bytes()))
}

/// Whether every message fits a record's reader.
pub open spec fn all_acceptable(l: Seq<HandshakeView>) -> bool {
    forall|i: int|
        0 <= i < l.len() ==> (#[trigger] l[i]).fits() && l[i].acceptable() && l[i].bytes().len()
            <= MAX_HANDSHAKE_SIZE
}

/// Records, one behind another.
pub open spec fn all_records(l: Seq<Seq<u8>>) -> Seq<u8>
    decreases l.len(),
{
    if l.len() == 0 {
        Seq::empty()
    } else {
        l[0] + all_records(l.skip(1))
    }
}

/// However the bytes of messages, with the start of one more behind them, are cut into
/// records of one epoch, the same messages come out with the same bytes, and the start
/// of the last one stays. This is so of one record too. Nothing comes out exactly as
/// long as nothing is complete.
pub proof fn law_cutting_is_ignored(l: Seq<HandshakeView>, tail: Seq<u8>, epoch: Epoch, records: Seq<Seq<u8>>)
    requires
        all_acceptable(l),
        key_updates_in(l) <= MAX_KEY_UPDATES_PER_RECORD,
        incomplete(tail),
        all_records(records) == all_bytes(l) + tail,
    ensures
        ({
            let start = ReassemblerView { pending: Seq::empty(), epoch: None, key_updates: 0 };
            let (out, end) = fed(start, epoch, records);
            &&& out == with_bytes(l)
            &&& end is Ok
            &&& end->Ok_0.pending == tail
        }),
        forall|s: ReassemblerView| #[trigger]
            next_outcome(s) == Ok::<Option<(HandshakeView, Seq<u8>)>, Error>(None) <==> incomplete(
                s.pending,
            ),
{
    let start = ReassemblerView { pending: Seq::empty(), epoch: None, key_updates: 0 };
    assert(start.pending + all_records(records) =~= all_bytes(l) + tail);
    lemma_fed(start, l, tail, epoch, records);
}

proof fn lemma_fed(
    s: ReassemblerView,
    l: Seq<HandshakeView>,
    tail: Seq<u8>,
    epoch: Epoch,
    records: Seq<Seq<u8>>,
)
    requires
        all_acceptable(l),
        key_updates_in(l) <= MAX_KEY_UPDATES_PER_RECORD,
        incomplete(tail),
        incomplete(s.pending),
        s.pending + all_records(records) == all_bytes(l) + tail,
    ensures
        fed(s, epoch, records).0 == with_bytes(l),
        fed(s, epoch, records).1 is Ok,
        fed(s, epoch, records).1->Ok_0.pending == tail,
    decreases records.len(),
{
    if records.len() == 0 {
        assert(s.pending + all_records(records) =~= s.pending);
        if l.len() > 0 {
            lemma_complete(l[0], all_bytes(l.skip(1)) + tail);
            assert(s.pending =~= l[0].bytes() + (all_bytes(l.skip(1)) + tail));
            assert(false);
        }
        assert(all_bytes(l) + tail =~= tail);
        assert(with_bytes(l) =~= Seq::empty());
    } else {
        let w = s.pending + records[0];
        let z = all_records(records.skip(1));
        assert(w + z =~= all_bytes(l) + tail);
        let k = lemma_prefix(w, z, l, tail);
        let t = behind(w, l, k);
        let pushed = ReassemblerView { pending: w, epoch: Some(epoch), key_updates: 0 };
        lemma_key_updates_split(l, k);
        assert(all_acceptable(l.take(k)));
        assert(all_acceptable(l.skip(k)));
        lemma_drained(pushed, l.take(k), t);
        let left = drained(pushed).1->Ok_0;
        assert(left.pending == t);
        lemma_fed(left, l.skip(k), tail, epoch, records.skip(1));
        assert(with_bytes(l.take(k)) + with_bytes(l.skip(k)) =~= with_bytes(l));
    }
}

/// A message with anything behind it is complete, and comes out.
proof fn lemma_complete(m: HandshakeView, rest: Seq<u8>)
    requires
        m.fits(),
        m.acceptable(),
        m.bytes().len() <= MAX_HANDSHAKE_SIZE,
    ensures
        !incomplete(m.bytes() + rest),
        m.bytes().len() >= 4,
        forall|epoch: Option<Epoch>, used: u32|
            used < MAX_KEY_UPDATES_PER_RECORD || !(m is KeyUpdate) ==> #[trigger] next_outcome(
                ReassemblerView { pending: m.bytes() + rest, epoch, key_updates: used },
            ) == Ok::<Option<(HandshakeView, Seq<u8>)>, Error>(Some((m, m.bytes()))),
        forall|epoch: Option<Epoch>, used: u32| #[trigger]
            after_next(
                ReassemblerView { pending: m.bytes() + rest, epoch, key_updates: used },
            ).pending == rest,
{
    law_fragmentation(m, rest, Epoch::Handshake);
    let p = m.bytes() + rest;
    let body = m.body();
    crate::codec::lemma_be24(body.len() as u32, body + rest);
    assert(p.skip(1) =~= crate::codec::be24(body.len() as u32) + (body + rest));
    let len = 4 + from_be24(p.skip(1));
    assert(len == m.bytes().len());
    assert(p.take(len) =~= m.bytes() + Seq::<u8>::empty());
    crate::handshake::law_handshake_round_trip(m, Seq::empty());
    assert(m.bytes() + Seq::<u8>::empty() =~= m.bytes());
    assert(p.skip(len) =~= rest);
}

proof fn lemma_drained(s: ReassemblerView, l: Seq<HandshakeView>, tail: Seq<u8>)
    requires
        all_acceptable(l),
        s.key_updates + key_updates_in(l) <= MAX_KEY_UPDATES_PER_RECORD,
        incomplete(tail),
        s.pending == all_bytes(l) + tail,
    ensures
        drained(s).0 == with_bytes(l),
        drained(s).1 is Ok,
        drained(s).1->Ok_0.pending == tail,
    decreases l.len(),
{
    if l.len() == 0 {
        assert(s.pending =~= tail);
        assert(with_bytes(l) =~= Seq::empty());
    } else {
        let t = l.skip(1);
        let rest = all_bytes(t) + tail;
        assert(s.pending =~= l[0].bytes() + rest);
        assert(l[0].fits());
        lemma_complete(l[0], rest);
        assert(s == (ReassemblerView {
            pending: l[0].bytes() + rest,
            epoch: s.epoch,
            key_updates: s.key_updates,
        }));
        let next = after_next(s);
        assert(next.pending == rest);
        lemma_rest_acceptable(l);
        lemma_drained(next, t, tail);
        assert(seq![(l[0], l[0].bytes())] + with_bytes(t) =~= with_bytes(l));
    }
}

/// The start of a message is not complete.
proof fn lemma_start_incomplete(m: HandshakeView, w: Seq<u8>)
    requires
        m.fits(),
        m.acceptable(),
        m.bytes().len() <= MAX_HANDSHAKE_SIZE,
        w.len() < m.bytes().len(),
        w == m.bytes().take(w.len() as int),
    ensures
        incomplete(w),
{
    law_fragmentation(m, Seq::empty(), Epoch::Handshake);
    let s = ReassemblerView {
        pending: m.bytes().take(w.len() as int),
        epoch: Some(Epoch::Handshake),
        key_updates: 0,
    };
    assert(next_outcome(s) == Ok::<Option<(HandshakeView, Seq<u8>)>, Error>(None));
}

/// The start of the start of a message is not complete either.
proof fn lemma_shorter_incomplete(tail: Seq<u8>, n: int)
    requires
        incomplete(tail),
        0 <= n <= tail.len(),
    ensures
        incomplete(tail.take(n)),
{
    let w = tail.take(n);
    if n >= 4 {
        assert(w.skip(1)[0] == tail.skip(1)[0] && w.skip(1)[1] == tail.skip(1)[1] && w.skip(1)[2]
            == tail.skip(1)[2]);
    }
}

/// Of two ways to cut bytes in two, the shorter front starts the longer one.
proof fn lemma_fronts(w: Seq<u8>, z: Seq<u8>, b: Seq<u8>, rest: Seq<u8>)
    requires
        w + z == b + rest,
    ensures
        w.len() < b.len() ==> w == b.take(w.len() as int),
        w.len() >= b.len() ==> w == b + w.skip(b.len() as int) && w.skip(b.len() as int) + z == rest,
{
    let n = w.len() as int;
    let m = b.len() as int;
    if n < m {
        assert((w + z).take(n) =~= w);
        assert((b + rest).take(n) =~= b.take(n));
    } else {
        assert((w + z).take(m) =~= w.take(m));
        assert((b + rest).take(m) =~= b);
        assert(w =~= w.take(m) + w.skip(m));
        assert((w + z).skip(m) =~= w.skip(m) + z);
        assert((b + rest).skip(m) =~= rest);
    }
}

/// What is left of bytes behind the bytes of the first `k` messages.
spec fn behind(w: Seq<u8>, l: Seq<HandshakeView>, k: int) -> Seq<u8> {
    w.skip(all_bytes(l.take(k)).len() as int)
}

/// The front of the bytes of messages is the bytes of some of them with the start of one
/// more behind.
#[verifier::rlimit(50)]
proof fn lemma_prefix(w: Seq<u8>, z: Seq<u8>, l: Seq<HandshakeView>, tail: Seq<u8>) -> (k: int)
    requires
        all_acceptable(l),
        incomplete(tail),
        w + z == all_bytes(l) + tail,
    ensures
        0 <= k <= l.len(),
        all_bytes(l.take(k)).len() <= w.len(),
        w == all_bytes(l.take(k)) + behind(w, l, k),
        incomplete(behind(w, l, k)),
        behind(w, l, k) + z == all_bytes(l.skip(k)) + tail,
    decreases l.len(),
{
    if l.len() > 0 && w.len() >= l[0].bytes().len() {
        let b = l[0].bytes();
        let t = l.skip(1);
        let rest = all_bytes(t) + tail;
        assert(all_bytes(l) + tail =~= b + rest);
        lemma_fronts(w, z, b, rest);
        let v = w.skip(b.len() as int);
        lemma_rest_acceptable(l);
        let k = lemma_prefix(v, z, t, tail);
        let some = l.take(k + 1);
        assert(some.skip(1) =~= t.take(k));
        assert(some[0] == l[0]);
        assert(all_bytes(some) == b + all_bytes(t.take(k)));
        assert(behind(w, l, k + 1) =~= behind(v, t, k));
        assert(w =~= all_bytes(some) + behind(w, l, k + 1));
        assert(l.skip(k + 1) =~= t.skip(k));
        k + 1
    } else {
        assert(l.take(0) =~= Seq::empty());
        assert(behind(w, l, 0) =~= w);
        assert(l.skip(0) =~= l);
        assert(all_bytes(l.take(0)) + w =~= w);
        if l.len() > 0 {
            let b = l[0].bytes();
            let rest = all_bytes(l.skip(1)) + tail;
            assert(all_bytes(l) + tail =~= b + rest);
            lemma_fronts(w, z, b, rest);
            assert(l[0].fits());
            lemma_start_incomplete(l[0], w);
        } else {
            assert(all_bytes(l) + tail =~= tail);
            assert((w + z).take(w.len() as int) =~= w);
            lemma_shorter_incomplete(tail, w.len() as int);
        }
        0
    }
}

proof fn lemma_rest_acceptable(l: Seq<HandshakeView>)
    requires
        all_acceptable(l),
        l.len() > 0,
    ensures
        all_acceptable(l.skip(1)),
{
    let t = l.skip(1);
    assert forall|i: int| 0 <= i < t.len() implies (#[trigger] t[i]).fits() && t[i].acceptable()
        && t[i].bytes().len() <= MAX_HANDSHAKE_SIZE by {
        assert(t[i] == l[i + 1]);
    }
}

proof fn lemma_key_updates_split(l: Seq<HandshakeView>, k: int)
    requires
        0 <= k <= l.len(),
    ensures
        key_updates_in(l) == key_updates_in(l.take(k)) + key_updates_in(l.skip(k)),
    decreases l.len(),
{
    if k == 0 {
        assert(l.take(0) =~= Seq::empty());
        assert(l.skip(0) =~= l);
    } else {
        lemma_key_updates_split(l.skip(1), k - 1);
        assert(l.take(k).skip(1) =~= l.skip(1).take(k - 1));
        assert(l.skip(1).skip(k - 1) =~= l.skip(k));
    }
}

} // verus!
