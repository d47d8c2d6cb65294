//! The transport capability: one interface over interchangeable backends.
//! Every operation runs as exactly one atomic unit of work against the
//! backend's shared region, built on the single `transaction` primitive.

use crate::msg_channel::{
    clear_spec, force_spec, lemma_force_push_payload, lemma_nul_index_at, msg_of, occupied,
    payload_of, stored_bytes, PAYLOAD_CAPACITY,
};
use crate::shared_mem::{first_occupied, MsgChannel, SHARED_MEM};
use vstd::prelude::*;

verus! {

/// One transportable unit: a channel identifier and the raw bytes bound for
/// it. Payload encodings belong to the model layer above; the transport
/// moves the bytes untouched.
#[verifier::ext_equal]
#[derive(Clone)]
pub struct Message {
    pub channel: MsgChannel,
    pub payload: Vec<u8>,
}

/// A channel between the controlling process and the application it
/// supervises. Backends differ only in where the shared region lives; every
/// mailbox operation is built on the one transactional primitive.
pub trait AppChannel {
    /// The shared region this backend owns.
    spec fn region(&self) -> SHARED_MEM;

    /// Open one atomic unit of work: exclusive access to the whole shared
    /// region for the lifetime of the returned borrow. The borrow is the
    /// transaction guard — no other access to the region can overlap it —
    /// so an operation that touches several mailboxes sees no interleaving.
    fn transaction(&mut self) -> (r: &mut SHARED_MEM)
        ensures
            *r == old(self).region(),
            final(self).region() == *final(r),
    ;

    /// True iff the channel held no message at the instant of the transaction.
    fn is_empty(&mut self, c: MsgChannel) -> (r: bool)
        requires
            old(self).region().wf(),
        ensures
            final(self).region() == old(self).region(),
            r == (msg_of(old(self).region().channel(c)@) is None),
    {
        let region = self.transaction();
        region.get_channel(c).is_empty()
    }

    /// Copy the channel's pending payload out without consuming it.
    fn peek(&mut self, c: MsgChannel) -> (r: Option<Vec<u8>>)
        requires
            old(self).region().wf(),
        ensures
            final(self).region() == old(self).region(),
            (r is None) == (msg_of(old(self).region().channel(c)@) is None),
            r matches Some(v) ==> msg_of(old(self).region().channel(c)@) == Some(v@),
    {
        let region = self.transaction();
        region.get_channel(c).peek()
    }

    /// Consume the channel's pending message, if any; the channel is empty
    /// afterwards whatever its prior state.
    fn receive(&mut self, c: MsgChannel) -> (r: Option<Vec<u8>>)
        requires
            old(self).region().wf(),
        ensures
            final(self).region().wf(),
            final(self).region().channel(c)@ == clear_spec(old(self).region().channel(c)@),
            msg_of(final(self).region().channel(c)@) is None,
            forall|d: MsgChannel| d != c ==> final(self).region().channel(d) == old(self).region().channel(d),
            (r is None) == (msg_of(old(self).region().channel(c)@) is None),
            r matches Some(v) ==> msg_of(old(self).region().channel(c)@) == Some(v@),
    {
        let region = self.transaction();
        let mb = region.get_channel_mut(c);
        let r = mb.pop();
        proof {
            assert(region.channel(MsgChannel::ProcessControlRequest).wf());
            assert(region.channel(MsgChannel::ProcessControlReply).wf());
            assert(region.channel(MsgChannel::GraphicsRequest).wf());
            assert(region.channel(MsgChannel::GraphicsReply).wf());
            assert(region.channel(MsgChannel::Heartbeat).wf());
            assert(region.channel(MsgChannel::AppStatus).wf());
            assert(region.channel(MsgChannel::TrickleUp).wf());
            assert(region.channel(MsgChannel::TrickleDown).wf());
        }
        r
    }

    /// Drop whatever the channel holds. Idempotent.
    fn clear(&mut self, c: MsgChannel)
        requires
            old(self).region().wf(),
        ensures
            final(self).region().wf(),
            final(self).region().channel(c)@ == clear_spec(old(self).region().channel(c)@),
            msg_of(final(self).region().channel(c)@) is None,
            forall|d: MsgChannel| d != c ==> final(self).region().channel(d) == old(self).region().channel(d),
    {
        let region = self.transaction();
        let mb = region.get_channel_mut(c);
        mb.clear();
        proof {
            assert(region.channel(MsgChannel::ProcessControlRequest).wf());
            assert(region.channel(MsgChannel::ProcessControlReply).wf());
            assert(region.channel(MsgChannel::GraphicsRequest).wf());
            assert(region.channel(MsgChannel::GraphicsReply).wf());
            assert(region.channel(MsgChannel::Heartbeat).wf());
            assert(region.channel(MsgChannel::AppStatus).wf());
            assert(region.channel(MsgChannel::TrickleUp).wf());
            assert(region.channel(MsgChannel::TrickleDown).wf());
        }
    }

    /// Route the message to its channel and deliver it only if that mailbox
    /// is empty. A rejected message comes back unchanged; rejection is
    /// backpressure, not an error, and retry policy belongs to the caller.
    fn push(&mut self, m: Message) -> (r: Option<Message>)
        requires
            old(self).region().wf(),
        ensures
            final(self).region().wf(),
            occupied(old(self).region().channel(m.channel)@) ==> r == Some(m) && forall|
                d: MsgChannel,
            | final(self).region().channel(d) == old(self).region().channel(d),
            !occupied(old(self).region().channel(m.channel)@) ==> {
                &&& r is None
                &&& final(self).region().channel(m.channel)@ == force_spec(
                    old(self).region().channel(m.channel)@,
                    m.payload@,
                )
                &&& msg_of(final(self).region().channel(m.channel)@) == Some(
                    stored_bytes(m.payload@),
                )
                &&& forall|d: MsgChannel| d != m.channel ==> final(self).region().channel(d) == old(self).region().channel(d)
            },
    {
        let Message { channel, payload } = m;
        let region = self.transaction();
        let mb = region.get_channel_mut(channel);
        let rejected = mb.push(payload);
        proof {
            assert(region.channel(MsgChannel::ProcessControlRequest).wf());
            assert(region.channel(MsgChannel::ProcessControlReply).wf());
            assert(region.channel(MsgChannel::GraphicsRequest).wf());
            assert(region.channel(MsgChannel::GraphicsReply).wf());
            assert(region.channel(MsgChannel::Heartbeat).wf());
            assert(region.channel(MsgChannel::AppStatus).wf());
            assert(region.channel(MsgChannel::TrickleUp).wf());
            assert(region.channel(MsgChannel::TrickleDown).wf());
        }
        match rejected {
            None => None,
            Some(v) => {
                let back = Message { channel, payload: v };
                proof {
                    assert(back =~= m);
                }
                Some(back)
            },
        }
    }

    /// Same as `push`, but the caller names the channel directly instead of
    /// letting the message route itself; the caller takes responsibility for
    /// the message-to-channel association.
    fn push_unchecked(&mut self, m: (MsgChannel, Vec<u8>)) -> (r: Option<(MsgChannel, Vec<u8>)>)
        requires
            old(self).region().wf(),
        ensures
            final(self).region().wf(),
            occupied(old(self).region().channel(m.0)@) ==> {
                &&& r is Some
                &&& r.unwrap().0 == m.0
                &&& r.unwrap().1 == m.1
                &&& forall|d: MsgChannel| final(self).region().channel(d) == old(self).region().channel(d)
            },
            !occupied(old(self).region().channel(m.0)@) ==> {
                &&& r is None
                &&& final(self).region().channel(m.0)@ == force_spec(
                    old(self).region().channel(m.0)@,
                    m.1@,
                )
                &&& msg_of(final(self).region().channel(m.0)@) == Some(stored_bytes(m.1@))
                &&& forall|d: MsgChannel| d != m.0 ==> final(self).region().channel(d) == old(self).region().channel(d)
            },
    {
        let (channel, payload) = m;
        let region = self.transaction();
        let mb = region.get_channel_mut(channel);
        let rejected = mb.push(payload);
        proof {
            assert(region.channel(MsgChannel::ProcessControlRequest).wf());
            assert(region.channel(MsgChannel::ProcessControlReply).wf());
            assert(region.channel(MsgChannel::GraphicsRequest).wf());
            assert(region.channel(MsgChannel::GraphicsReply).wf());
            assert(region.channel(MsgChannel::Heartbeat).wf());
            assert(region.channel(MsgChannel::AppStatus).wf());
            assert(region.channel(MsgChannel::TrickleUp).wf());
            assert(region.channel(MsgChannel::TrickleDown).wf());
        }
        match rejected {
            None => None,
            Some(v) => Some((channel, v)),
        }
    }

    /// Route the message to its channel and overwrite whatever is there:
    /// last-writer-wins, for liveness-style channels where losing a stale
    /// pending value is acceptable.
    fn force(&mut self, m: Message)
        requires
            old(self).region().wf(),
        ensures
            final(self).region().wf(),
            final(self).region().channel(m.channel)@ == force_spec(
                old(self).region().channel(m.channel)@,
                m.payload@,
            ),
            msg_of(final(self).region().channel(m.channel)@) == Some(stored_bytes(m.payload@)),
            forall|d: MsgChannel| d != m.channel ==> final(self).region().channel(d) == old(self).region().channel(d),
    {
        let Message { channel, payload } = m;
        let region = self.transaction();
        let mb = region.get_channel_mut(channel);
        mb.force_push(payload.as_slice());
        proof {
            assert(region.channel(MsgChannel::ProcessControlRequest).wf());
            assert(region.channel(MsgChannel::ProcessControlReply).wf());
            assert(region.channel(MsgChannel::GraphicsRequest).wf());
            assert(region.channel(MsgChannel::GraphicsReply).wf());
            assert(region.channel(MsgChannel::Heartbeat).wf());
            assert(region.channel(MsgChannel::AppStatus).wf());
            assert(region.channel(MsgChannel::TrickleUp).wf());
            assert(region.channel(MsgChannel::TrickleDown).wf());
        }
    }

    /// Same as `force`, but the caller names the channel directly; the
    /// caller takes responsibility for the message-to-channel association.
    fn force_unchecked(&mut self, m: (MsgChannel, Vec<u8>))
        requires
            old(self).region().wf(),
        ensures
            final(self).region().wf(),
            final(self).region().channel(m.0)@ == force_spec(
                old(self).region().channel(m.0)@,
                m.1@,
            ),
            msg_of(final(self).region().channel(m.0)@) == Some(stored_bytes(m.1@)),
            forall|d: MsgChannel| d != m.0 ==> final(self).region().channel(d) == old(self).region().channel(d),
    {
        let (channel, payload) = m;
        let region = self.transaction();
        let mb = region.get_channel_mut(channel);
        mb.force_push(payload.as_slice());
        proof {
            assert(region.channel(MsgChannel::ProcessControlRequest).wf());
            assert(region.channel(MsgChannel::ProcessControlReply).wf());
            assert(region.channel(MsgChannel::GraphicsRequest).wf());
            assert(region.channel(MsgChannel::GraphicsReply).wf());
            assert(region.channel(MsgChannel::Heartbeat).wf());
            assert(region.channel(MsgChannel::AppStatus).wf());
            assert(region.channel(MsgChannel::TrickleUp).wf());
            assert(region.channel(MsgChannel::TrickleDown).wf());
        }
    }

    /// Scan the control group's channels in their externally supplied order,
    /// inside one transaction, and consume the first pending message. The
    /// raw bytes go back to the model layer, whose decoder owns their shape.
    fn pull_control(&mut self, order: &[MsgChannel]) -> (r: Option<(MsgChannel, Vec<u8>)>)
        requires
            old(self).region().wf(),
        ensures
            final(self).region().wf(),
            first_occupied(old(self).region(), order@) is None ==> r is None && final(self).region() == old(self).region(),
            first_occupied(old(self).region(), order@) matches Some(k) ==> {
                &&& r is Some
                &&& r.unwrap().0 == order@[k]
                &&& r.unwrap().1@ == payload_of(old(self).region().channel(order@[k])@)
                &&& final(self).region().channel(order@[k])@ == clear_spec(
                    old(self).region().channel(order@[k])@,
                )
                &&& forall|d: MsgChannel| d != order@[k] ==> final(self).region().channel(d) == old(self).region().channel(d)
            },
    {
        let region = self.transaction();
        region.pull_first(order)
    }

    /// Scan the status group's channels in their externally supplied order,
    /// inside one transaction, and consume the first pending message.
    fn pull_status(&mut self, order: &[MsgChannel]) -> (r: Option<(MsgChannel, Vec<u8>)>)
        requires
            old(self).region().wf(),
        ensures
            final(self).region().wf(),
            first_occupied(old(self).region(), order@) is None ==> r is None && final(self).region() == old(self).region(),
            first_occupied(old(self).region(), order@) matches Some(k) ==> {
                &&& r is Some
                &&& r.unwrap().0 == order@[k]
                &&& r.unwrap().1@ == payload_of(old(self).region().channel(order@[k])@)
                &&& final(self).region().channel(order@[k])@ == clear_spec(
                    old(self).region().channel(order@[k])@,
                )
                &&& forall|d: MsgChannel| d != order@[k] ==> final(self).region().channel(d) == old(self).region().channel(d)
            },
    {
        let region = self.transaction();
        region.pull_first(order)
    }
}

/// In-process backend: owns the shared region by exclusive value, for
/// testing and intra-process use. Exclusive ownership is the process-local
/// guard here: a caller that shares one instance across threads serializes
/// access around it, and every access still funnels through `transaction`.
pub struct MemoryAppChannel {
    mem: SHARED_MEM,
}

impl MemoryAppChannel {
    /// A backend over a fresh, all-empty region.
    pub fn new() -> (r: Self)
        ensures
            r.region().wf(),
            forall|c: MsgChannel| msg_of(r.region().channel(c)@) is None,
    {
        MemoryAppChannel { mem: SHARED_MEM::new() }
    }
}

impl AppChannel for MemoryAppChannel {
    closed spec fn region(&self) -> SHARED_MEM {
        self.mem
    }

    fn transaction(&mut self) -> (r: &mut SHARED_MEM) {
        &mut self.mem
    }
}

/// Law: forcing a message and then receiving on the channel it routes to
/// recovers the stored payload — the message's bytes cut at their first NUL
/// and at the payload capacity — and exactly the original bytes whenever they
/// fit and hold no embedded NUL.
pub proof fn lemma_force_receive_roundtrip(region: SHARED_MEM, m: Message)
    requires
        region.wf(),
    ensures
        msg_of(force_spec(region.channel(m.channel)@, m.payload@)) == Some(
            stored_bytes(m.payload@),
        ),
        (m.payload@.len() < PAYLOAD_CAPACITY && (forall|i: int|
            0 <= i < m.payload@.len() ==> m.payload@[i] != 0)) ==> stored_bytes(m.payload@)
            == m.payload@,
{
    lemma_force_push_payload(region.channel(m.channel)@, m.payload@);
    if m.payload@.len() < PAYLOAD_CAPACITY && (forall|i: int|
        0 <= i < m.payload@.len() ==> m.payload@[i] != 0) {
        lemma_nul_index_at(m.payload@, m.payload@.len() as int);
        assert(stored_bytes(m.payload@) =~= m.payload@);
    }
}

impl Default for MemoryAppChannel {
    /// A backend over a fresh, all-empty region.
    fn default() -> (r: Self)
        ensures
            r.region().wf(),
            forall|c: MsgChannel| msg_of(r.region().channel(c)@) is None,
    {
        MemoryAppChannel::new()
    }
}

} // verus!
