//! Single-slot framed mailbox: a fixed-size byte buffer holding at most one
//! pending message, with occupancy tracked in-band at byte 0.

use vstd::prelude::*;

verus! {

/// Raw size of one mailbox slot in bytes.
pub const MSG_CHANNEL_SIZE: usize = 1024;

/// Longest payload a mailbox hands back to a reader. Byte 0 is the occupancy
/// flag, the payload is always NUL-terminated within the slot, and the last
/// byte stays zero as a guard, so readers stop a few bytes short of the raw
/// slot size.
pub const PAYLOAD_CAPACITY: usize = 1020;

/// Index of the first zero byte of `s`, or `s.len()` if `s` has none.
pub open spec fn nul_index(s: Seq<u8>) -> int
    decreases s.len(),
{
    if s.len() == 0 {
        0
    } else if s[0] == 0 {
        0
    } else {
        1 + nul_index(s.drop_first())
    }
}

pub proof fn lemma_nul_index(s: Seq<u8>)
    ensures
        0 <= nul_index(s) <= s.len(),
        forall|i: int| 0 <= i < nul_index(s) ==> s[i] != 0,
        nul_index(s) < s.len() ==> s[nul_index(s)] == 0,
    decreases s.len(),
{
    if s.len() > 0 && s[0] != 0 {
        lemma_nul_index(s.drop_first());
        assert forall|i: int| 0 <= i < nul_index(s) implies s[i] != 0 by {
            if i > 0 {
                assert(s.drop_first()[i - 1] == s[i]);
            }
        }
        if nul_index(s) < s.len() {
            assert(s.drop_first()[nul_index(s) - 1] == s[nul_index(s)]);
        }
    }
}

/// `nul_index(s)` is exactly `k` whenever the first `k` bytes are nonzero and
/// either `k` is the whole length or byte `k` is zero.
pub proof fn lemma_nul_index_at(s: Seq<u8>, k: int)
    requires
        0 <= k <= s.len(),
        forall|i: int| 0 <= i < k ==> s[i] != 0,
        k < s.len() ==> s[k] == 0,
    ensures
        nul_index(s) == k,
    decreases s.len(),
{
    if s.len() > 0 && s[0] != 0 {
        assert forall|i: int| 0 <= i < k - 1 implies s.drop_first()[i] != 0 by {
            assert(s.drop_first()[i] == s[i + 1]);
        }
        if k - 1 < s.drop_first().len() {
            assert(s.drop_first()[k - 1] == s[k]);
        }
        lemma_nul_index_at(s.drop_first(), k - 1);
    }
}

/// The bytes a force-write records for payload `p`: `p` cut at its first
/// embedded NUL and at the payload capacity, whichever comes first.
pub open spec fn stored_bytes(p: Seq<u8>) -> Seq<u8> {
    p.take(vstd::math::min(nul_index(p), PAYLOAD_CAPACITY as int))
}

/// Whether slot bytes `b` hold a pending message (byte 0 is the occupancy flag).
pub open spec fn occupied(b: Seq<u8>) -> bool {
    b[0] != 0
}

/// The payload a reader extracts from slot bytes `b`: the bytes after the
/// occupancy flag, cut at the first NUL and at the payload capacity.
pub open spec fn payload_of(b: Seq<u8>) -> Seq<u8> {
    let s = b.subrange(1, 1 + PAYLOAD_CAPACITY as int);
    s.take(nul_index(s))
}

/// The pending message of slot bytes `b`, if any.
pub open spec fn msg_of(b: Seq<u8>) -> Option<Seq<u8>> {
    if occupied(b) {
        Some(payload_of(b))
    } else {
        None
    }
}

/// Slot bytes after a clear: only the occupancy flag changes.
pub open spec fn clear_spec(b: Seq<u8>) -> Seq<u8> {
    b.update(0, 0u8)
}

/// Slot bytes after a force-write of payload `p` over prior bytes `b`:
/// occupancy set, the stored bytes laid out from index 1, a NUL terminator
/// right after them, the guard byte zeroed, and everything else untouched.
pub open spec fn force_spec(b: Seq<u8>, p: Seq<u8>) -> Seq<u8> {
    let t = stored_bytes(p);
    Seq::new(
        b.len(),
        |i: int|
            if i == 0 {
                1u8
            } else if i == MSG_CHANNEL_SIZE - 1 {
                0u8
            } else if 1 <= i <= t.len() {
                t[i - 1]
            } else if i == t.len() + 1 {
                0u8
            } else {
                b[i]
            },
    )
}

/// Law: a force-write marks the slot occupied, and what a reader then
/// extracts is exactly the payload cut at its first NUL and at the payload
/// capacity. This is the mailbox framing round trip.
pub proof fn lemma_force_push_payload(b: Seq<u8>, p: Seq<u8>)
    requires
        b.len() == MSG_CHANNEL_SIZE,
    ensures
        occupied(force_spec(b, p)),
        msg_of(force_spec(b, p)) == Some(stored_bytes(p)),
        payload_of(force_spec(b, p)) == stored_bytes(p),
{
    let t = stored_bytes(p);
    let f = force_spec(b, p);
    let s = f.subrange(1, 1 + PAYLOAD_CAPACITY as int);
    lemma_nul_index(p);
    assert(t.len() <= PAYLOAD_CAPACITY);
    assert forall|i: int| 0 <= i < t.len() implies s[i] != 0 by {
        assert(s[i] == f[i + 1]);
        assert(f[i + 1] == t[i]);
        assert(t[i] == p[i]);
    }
    if t.len() < PAYLOAD_CAPACITY {
        assert(s[t.len() as int] == f[t.len() as int + 1]);
        assert(f[t.len() as int + 1] == 0);
    }
    lemma_nul_index_at(s, t.len() as int);
    assert forall|i: int| 0 <= i < t.len() implies s.take(nul_index(s))[i] == t[i] by {
        assert(s[i] == f[i + 1]);
    }
    assert(payload_of(f) =~= t);
}

/// Law: clearing a slot twice leaves exactly the bytes one clear leaves.
pub proof fn lemma_clear_idempotent(b: Seq<u8>)
    requires
        b.len() == MSG_CHANNEL_SIZE,
    ensures
        clear_spec(clear_spec(b)) == clear_spec(b),
{
    assert(clear_spec(clear_spec(b)) =~= clear_spec(b));
}

/// One single-slot mailbox. Byte 0 is the occupancy flag (0 = empty,
/// nonzero = occupied); the payload sits from byte 1 on, NUL-terminated;
/// the last byte stays zero as a guard terminator.
#[allow(non_camel_case_types)]
pub struct MSG_CHANNEL {
    buf: Vec<u8>,
}

impl View for MSG_CHANNEL {
    type V = Seq<u8>;

    closed spec fn view(&self) -> Seq<u8> {
        self.buf@
    }
}

impl MSG_CHANNEL {
    /// The slot always spans exactly the raw mailbox size.
    pub open spec fn wf(&self) -> bool {
        self@.len() == MSG_CHANNEL_SIZE
    }

    /// A zero-filled, hence empty, mailbox.
    pub fn new() -> (r: Self)
        ensures
            r.wf(),
            r@ == Seq::new(MSG_CHANNEL_SIZE as nat, |i: int| 0u8),
            msg_of(r@) is None,
    {
        let mut buf: Vec<u8> = Vec::new();
        let mut i: usize = 0;
        while i < MSG_CHANNEL_SIZE
            invariant
                i <= MSG_CHANNEL_SIZE,
                buf@.len() == i,
                forall|j: int| 0 <= j < i ==> buf@[j] == 0u8,
            decreases MSG_CHANNEL_SIZE - i,
        {
            buf.push(0u8);
            i += 1;
        }
        let r = MSG_CHANNEL { buf };
        assert(r@ =~= Seq::new(MSG_CHANNEL_SIZE as nat, |i: int| 0u8));
        r
    }

    /// True iff no message is pending.
    pub fn is_empty(&self) -> (r: bool)
        requires
            self.wf(),
        ensures
            r == (msg_of(self@) is None),
            r == !occupied(self@),
    {
        self.buf[0] == 0
    }

    /// Drop any pending message by resetting the occupancy flag. Idempotent;
    /// the payload bytes of a cleared slot are dead and never read.
    pub fn clear(&mut self)
        requires
            old(self).wf(),
        ensures
            final(self).wf(),
            final(self)@ == clear_spec(old(self)@),
            msg_of(final(self)@) is None,
    {
        self.buf[0] = 0;
        assert(self@ =~= clear_spec(old(self)@));
    }

    /// Copy the pending payload out, if any, without mutating the slot.
    /// The copy stops at the first NUL and at the payload capacity, whatever
    /// was written, so a reader never runs past the slot.
    pub fn peek(&self) -> (r: Option<Vec<u8>>)
        requires
            self.wf(),
        ensures
            (r is None) == (msg_of(self@) is None),
            r matches Some(v) ==> msg_of(self@) == Some(v@),
    {
        if self.buf[0] == 0 {
            return None;
        }
        let mut v: Vec<u8> = Vec::new();
        let mut j: usize = 1;
        while j < 1 + PAYLOAD_CAPACITY && self.buf[j] != 0
            invariant
                self.wf(),
                1 <= j <= 1 + PAYLOAD_CAPACITY,
                v@.len() == j - 1,
                forall|i: int| 0 <= i < j - 1 ==> v@[i] == self@[i + 1] && self@[i + 1] != 0,
            decreases 1 + PAYLOAD_CAPACITY - j,
        {
            let b = self.buf[j];
            v.push(b);
            j += 1;
        }
        proof {
            let s = self@.subrange(1, 1 + PAYLOAD_CAPACITY as int);
            assert forall|i: int| 0 <= i < j - 1 implies s[i] != 0 by {
                assert(v@[i] == self@[i + 1]);
                assert(s[i] == self@[i + 1]);
            }
            if j - 1 < PAYLOAD_CAPACITY {
                assert(s[j - 1] == self@[j as int]);
            }
            lemma_nul_index_at(s, j - 1);
            assert forall|i: int| 0 <= i < j - 1 implies s.take(nul_index(s))[i] == v@[i] by {
                assert(s[i] == self@[i + 1]);
            }
            assert(v@ =~= payload_of(self@));
        }
        Some(v)
    }

    /// Extract the pending payload, if any, and leave the slot empty.
    pub fn pop(&mut self) -> (r: Option<Vec<u8>>)
        requires
            old(self).wf(),
        ensures
            final(self).wf(),
            final(self)@ == clear_spec(old(self)@),
            msg_of(final(self)@) is None,
            (r is None) == (msg_of(old(self)@) is None),
            r matches Some(v) ==> msg_of(old(self)@) == Some(v@),
    {
        let v = self.peek();
        self.clear();
        v
    }

    /// Write `msg` into the slot and mark it occupied, regardless of prior
    /// occupancy: a last-writer-wins overwrite. The payload is cut at its
    /// first NUL and at the payload capacity, a NUL terminator follows it,
    /// and the guard byte is zeroed.
    pub fn force_push(&mut self, msg: &[u8])
        requires
            old(self).wf(),
        ensures
            final(self).wf(),
            final(self)@ == force_spec(old(self)@, msg@),
            occupied(final(self)@),
            msg_of(final(self)@) == Some(stored_bytes(msg@)),
    {
        self.buf[0] = 1;
        let mut i: usize = 0;
        while i < msg.len() && i < PAYLOAD_CAPACITY && msg[i] != 0
            invariant
                self@.len() == MSG_CHANNEL_SIZE,
                i <= msg@.len(),
                i <= PAYLOAD_CAPACITY,
                self@[0] == 1,
                forall|j: int| 0 <= j < i ==> self@[j + 1] == msg@[j] && msg@[j] != 0,
                forall|j: int| i + 1 <= j < MSG_CHANNEL_SIZE ==> self@[j] == old(self)@[j],
            decreases msg@.len() - i,
        {
            self.buf[i + 1] = msg[i];
            i += 1;
        }
        self.buf[i + 1] = 0;
        self.buf[MSG_CHANNEL_SIZE - 1] = 0;
        proof {
            lemma_nul_index(msg@);
            if i < msg@.len() && i < PAYLOAD_CAPACITY {
                lemma_nul_index_at(msg@, i as int);
            } else if i == msg@.len() {
                lemma_nul_index_at(msg@, i as int);
            } else {
                assert(nul_index(msg@) >= PAYLOAD_CAPACITY) by {
                    if nul_index(msg@) < PAYLOAD_CAPACITY {
                        assert(msg@[nul_index(msg@)] != 0);
                    }
                }
            }
            let t = stored_bytes(msg@);
            assert(t.len() == i);
            assert forall|k: int| 0 <= k < MSG_CHANNEL_SIZE implies self@[k] == force_spec(
                old(self)@,
                msg@,
            )[k] by {
                if 1 <= k <= t.len() {
                    assert(self@[k] == msg@[k - 1]);
                    assert(t[k - 1] == msg@[k - 1]);
                }
            }
            assert(self@ =~= force_spec(old(self)@, msg@));
            lemma_force_push_payload(old(self)@, msg@);
        }
    }

    /// Deliver `msg` only if the slot is empty; an occupied slot rejects the
    /// push and returns the payload unchanged, leaving the occupant intact.
    /// The rejection is backpressure, not an error: the reader has not yet
    /// consumed the prior message, and retry policy belongs to the caller.
    pub fn push(&mut self, msg: Vec<u8>) -> (r: Option<Vec<u8>>)
        requires
            old(self).wf(),
        ensures
            final(self).wf(),
            occupied(old(self)@) ==> r == Some(msg) && *final(self) == *old(self),
            !occupied(old(self)@) ==> r is None && final(self)@ == force_spec(
                old(self)@,
                msg@,
            ) && msg_of(final(self)@) == Some(stored_bytes(msg@)),
    {
        if self.is_empty() {
            self.force_push(msg.as_slice());
            None
        } else {
            Some(msg)
        }
    }

    /// Adopt `b` verbatim as the slot's bytes. This is the read half of the
    /// byte-for-byte exchange with an independently mapped copy of the region.
    pub fn from_bytes(b: &[u8]) -> (r: Self)
        requires
            b@.len() == MSG_CHANNEL_SIZE,
        ensures
            r.wf(),
            r@ == b@,
    {
        let mut buf: Vec<u8> = Vec::new();
        let mut i: usize = 0;
        while i < MSG_CHANNEL_SIZE
            invariant
                i <= MSG_CHANNEL_SIZE,
                b@.len() == MSG_CHANNEL_SIZE,
                buf@.len() == i,
                forall|j: int| 0 <= j < i ==> buf@[j] == b@[j],
            decreases MSG_CHANNEL_SIZE - i,
        {
            buf.push(b[i]);
            i += 1;
        }
        let r = MSG_CHANNEL { buf };
        assert(r@ =~= b@);
        r
    }

    /// Append the slot's bytes to `out` verbatim: the write half of the
    /// byte-for-byte exchange with an independently mapped copy of the region.
    pub fn append_to(&self, out: &mut Vec<u8>)
        requires
            self.wf(),
        ensures
            final(out)@ == old(out)@ + self@,
    {
        let mut i: usize = 0;
        while i < MSG_CHANNEL_SIZE
            invariant
                i <= MSG_CHANNEL_SIZE,
                self.wf(),
                out@.len() == old(out)@.len() + i,
                forall|j: int| 0 <= j < old(out)@.len() ==> out@[j] == old(out)@[j],
                forall|j: int| 0 <= j < i ==> out@[old(out)@.len() + j] == self@[j],
            decreases MSG_CHANNEL_SIZE - i,
        {
            let b = self.buf[i];
            out.push(b);
            i += 1;
        }
        assert(out@ =~= old(out)@ + self@);
    }
}

impl Default for MSG_CHANNEL {
    /// A zero-filled, hence empty, mailbox.
    fn default() -> (r: Self)
        ensures
            r.wf(),
            r@ == Seq::new(MSG_CHANNEL_SIZE as nat, |i: int| 0u8),
            msg_of(r@) is None,
    {
        MSG_CHANNEL::new()
    }
}

/// Law: for a payload shorter than the payload capacity and holding no
/// embedded NUL, delivering it into an empty mailbox and then receiving
/// returns exactly the original bytes.
pub proof fn lemma_push_receive_exact(b: Seq<u8>, p: Seq<u8>)
    requires
        b.len() == MSG_CHANNEL_SIZE,
        p.len() < PAYLOAD_CAPACITY,
        forall|i: int| 0 <= i < p.len() ==> p[i] != 0,
    ensures
        msg_of(force_spec(b, p)) == Some(p),
{
    lemma_nul_index_at(p, p.len() as int);
    lemma_force_push_payload(b, p);
    assert(stored_bytes(p) =~= p);
}

} // verus!
