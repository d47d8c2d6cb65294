//! The shared region: exactly eight mailboxes in a fixed, language-independent
//! binary order, addressed by a closed set of channel identifiers. Independent
//! processes mapping the same backing bytes interpret identical offsets, so
//! the concatenation order here is a de facto wire format.

use crate::msg_channel::{
    clear_spec, msg_of, occupied, payload_of, MSG_CHANNEL, MSG_CHANNEL_SIZE,
};
use vstd::prelude::*;

verus! {

/// Raw size of the whole shared region in bytes: eight slots, no header,
/// no interior padding.
pub const SHARED_MEM_SIZE: usize = 8192;

/// The closed set of channel identifiers. No identifier is ever invalid:
/// dispatch over them is total.
#[derive(Clone, Copy, PartialEq, Eq, Structural, Debug)]
pub enum MsgChannel {
    ProcessControlRequest,
    ProcessControlReply,
    GraphicsRequest,
    GraphicsReply,
    Heartbeat,
    AppStatus,
    TrickleUp,
    TrickleDown,
}

/// Position of a channel's slot within the region's fixed binary order.
pub open spec fn channel_ord(c: MsgChannel) -> int {
    match c {
        MsgChannel::ProcessControlRequest => 0,
        MsgChannel::ProcessControlReply => 1,
        MsgChannel::GraphicsRequest => 2,
        MsgChannel::GraphicsReply => 3,
        MsgChannel::Heartbeat => 4,
        MsgChannel::AppStatus => 5,
        MsgChannel::TrickleUp => 6,
        MsgChannel::TrickleDown => 7,
    }
}

/// The shared region: one mailbox per channel, laid out in declaration order.
#[allow(non_camel_case_types)]
pub struct SHARED_MEM {
    pub process_control_request: MSG_CHANNEL,
    pub process_control_reply: MSG_CHANNEL,
    pub graphics_request: MSG_CHANNEL,
    pub graphics_reply: MSG_CHANNEL,
    pub heartbeat: MSG_CHANNEL,
    pub app_status: MSG_CHANNEL,
    pub trickle_up: MSG_CHANNEL,
    pub trickle_down: MSG_CHANNEL,
}

impl SHARED_MEM {
    /// Every slot spans exactly the raw mailbox size.
    pub open spec fn wf(&self) -> bool {
        &&& self.process_control_request.wf()
        &&& self.process_control_reply.wf()
        &&& self.graphics_request.wf()
        &&& self.graphics_reply.wf()
        &&& self.heartbeat.wf()
        &&& self.app_status.wf()
        &&& self.trickle_up.wf()
        &&& self.trickle_down.wf()
    }

    /// The mailbox a channel identifier addresses.
    pub open spec fn channel(self, m: MsgChannel) -> MSG_CHANNEL {
        match m {
            MsgChannel::ProcessControlRequest => self.process_control_request,
            MsgChannel::ProcessControlReply => self.process_control_reply,
            MsgChannel::GraphicsRequest => self.graphics_request,
            MsgChannel::GraphicsReply => self.graphics_reply,
            MsgChannel::Heartbeat => self.heartbeat,
            MsgChannel::AppStatus => self.app_status,
            MsgChannel::TrickleUp => self.trickle_up,
            MsgChannel::TrickleDown => self.trickle_down,
        }
    }

    /// The region's bytes: the eight slots concatenated in their fixed order.
    pub open spec fn region_bytes(self) -> Seq<u8> {
        self.process_control_request@ + self.process_control_reply@ + self.graphics_request@
            + self.graphics_reply@ + self.heartbeat@ + self.app_status@ + self.trickle_up@
            + self.trickle_down@
    }

    /// A region of eight zero-filled, hence all-empty, mailboxes.
    pub fn new() -> (r: Self)
        ensures
            r.wf(),
            forall|c: MsgChannel| msg_of(r.channel(c)@) is None,
            r.region_bytes() == Seq::new(SHARED_MEM_SIZE as nat, |i: int| 0u8),
    {
        let r = SHARED_MEM {
            process_control_request: MSG_CHANNEL::new(),
            process_control_reply: MSG_CHANNEL::new(),
            graphics_request: MSG_CHANNEL::new(),
            graphics_reply: MSG_CHANNEL::new(),
            heartbeat: MSG_CHANNEL::new(),
            app_status: MSG_CHANNEL::new(),
            trickle_up: MSG_CHANNEL::new(),
            trickle_down: MSG_CHANNEL::new(),
        };
        proof {
            assert(r.region_bytes() =~= Seq::new(SHARED_MEM_SIZE as nat, |i: int| 0u8));
        }
        r
    }

    /// Look up a channel's mailbox for reading. Dispatch is total.
    pub fn get_channel(&self, m: MsgChannel) -> (r: &MSG_CHANNEL)
        ensures
            *r == self.channel(m),
    {
        match m {
            MsgChannel::ProcessControlRequest => &self.process_control_request,
            MsgChannel::ProcessControlReply => &self.process_control_reply,
            MsgChannel::GraphicsRequest => &self.graphics_request,
            MsgChannel::GraphicsReply => &self.graphics_reply,
            MsgChannel::Heartbeat => &self.heartbeat,
            MsgChannel::AppStatus => &self.app_status,
            MsgChannel::TrickleUp => &self.trickle_up,
            MsgChannel::TrickleDown => &self.trickle_down,
        }
    }

    /// Look up a channel's mailbox for writing. Dispatch is total, and no
    /// other channel's mailbox is touched through the returned borrow.
    pub fn get_channel_mut(&mut self, m: MsgChannel) -> (r: &mut MSG_CHANNEL)
        ensures
            *r == old(self).channel(m),
            final(self).channel(m) == *final(r),
            forall|d: MsgChannel| d != m ==> final(self).channel(d) == old(self).channel(d),
    {
        match m {
            MsgChannel::ProcessControlRequest => &mut self.process_control_request,
            MsgChannel::ProcessControlReply => &mut self.process_control_reply,
            MsgChannel::GraphicsRequest => &mut self.graphics_request,
            MsgChannel::GraphicsReply => &mut self.graphics_reply,
            MsgChannel::Heartbeat => &mut self.heartbeat,
            MsgChannel::AppStatus => &mut self.app_status,
            MsgChannel::TrickleUp => &mut self.trickle_up,
            MsgChannel::TrickleDown => &mut self.trickle_down,
        }
    }

    /// Adopt the region bytes of an independently produced copy (for
    /// instance, one read back from a mapped file) slot by slot.
    pub fn from_bytes(b: &[u8]) -> (r: Self)
        requires
            b@.len() == SHARED_MEM_SIZE,
        ensures
            r.wf(),
            r.region_bytes() == b@,
            forall|c: MsgChannel| r.channel(c)@ == b@.subrange(
                MSG_CHANNEL_SIZE * channel_ord(c),
                MSG_CHANNEL_SIZE * (channel_ord(c) + 1),
            ),
    {
        let r = SHARED_MEM {
            process_control_request: MSG_CHANNEL::from_bytes(
                vstd::slice::slice_subrange(b, 0, 1024),
            ),
            process_control_reply: MSG_CHANNEL::from_bytes(
                vstd::slice::slice_subrange(b, 1024, 2048),
            ),
            graphics_request: MSG_CHANNEL::from_bytes(vstd::slice::slice_subrange(b, 2048, 3072)),
            graphics_reply: MSG_CHANNEL::from_bytes(vstd::slice::slice_subrange(b, 3072, 4096)),
            heartbeat: MSG_CHANNEL::from_bytes(vstd::slice::slice_subrange(b, 4096, 5120)),
            app_status: MSG_CHANNEL::from_bytes(vstd::slice::slice_subrange(b, 5120, 6144)),
            trickle_up: MSG_CHANNEL::from_bytes(vstd::slice::slice_subrange(b, 6144, 7168)),
            trickle_down: MSG_CHANNEL::from_bytes(vstd::slice::slice_subrange(b, 7168, 8192)),
        };
        proof {
            assert(r.region_bytes() =~= b@);
        }
        r
    }

    /// The region's bytes as one vector: the write half of the byte-for-byte
    /// exchange with an independently mapped copy of the region.
    pub fn to_bytes(&self) -> (r: Vec<u8>)
        requires
            self.wf(),
        ensures
            r@ == self.region_bytes(),
            r@.len() == SHARED_MEM_SIZE,
    {
        let mut out: Vec<u8> = Vec::new();
        self.process_control_request.append_to(&mut out);
        self.process_control_reply.append_to(&mut out);
        self.graphics_request.append_to(&mut out);
        self.graphics_reply.append_to(&mut out);
        self.heartbeat.append_to(&mut out);
        self.app_status.append_to(&mut out);
        self.trickle_up.append_to(&mut out);
        self.trickle_down.append_to(&mut out);
        proof {
            assert(out@ =~= self.region_bytes());
        }
        out
    }

    /// Byte offset of a channel's slot within the region.
    pub fn channel_offset(c: MsgChannel) -> (r: usize)
        ensures
            r == MSG_CHANNEL_SIZE * channel_ord(c),
            r + MSG_CHANNEL_SIZE <= SHARED_MEM_SIZE,
    {
        match c {
            MsgChannel::ProcessControlRequest => 0,
            MsgChannel::ProcessControlReply => 1024,
            MsgChannel::GraphicsRequest => 2048,
            MsgChannel::GraphicsReply => 3072,
            MsgChannel::Heartbeat => 4096,
            MsgChannel::AppStatus => 5120,
            MsgChannel::TrickleUp => 6144,
            MsgChannel::TrickleDown => 7168,
        }
    }
}

impl Default for SHARED_MEM {
    /// A region of eight zero-filled, hence all-empty, mailboxes.
    fn default() -> (r: Self)
        ensures
            r.wf(),
            forall|c: MsgChannel| msg_of(r.channel(c)@) is None,
            r.region_bytes() == Seq::new(SHARED_MEM_SIZE as nat, |i: int| 0u8),
    {
        SHARED_MEM::new()
    }
}

/// Law: each channel's slot sits at its fixed offset within the region's
/// bytes, so independent processes mapping the same bytes agree on where
/// every mailbox begins and ends.
pub proof fn lemma_channel_layout(m: SHARED_MEM, c: MsgChannel)
    requires
        m.wf(),
    ensures
        m.region_bytes().subrange(
            MSG_CHANNEL_SIZE * channel_ord(c),
            MSG_CHANNEL_SIZE * (channel_ord(c) + 1),
        ) == m.channel(c)@,
{
    let rb = m.region_bytes();
    assert(rb.subrange(
        MSG_CHANNEL_SIZE * channel_ord(c),
        MSG_CHANNEL_SIZE * (channel_ord(c) + 1),
    ) =~= m.channel(c)@);
}

/// Index into `order` of the first channel whose mailbox in `m` is occupied,
/// or nothing if every listed channel is empty.
pub open spec fn first_occupied(m: SHARED_MEM, order: Seq<MsgChannel>) -> Option<int>
    decreases order.len(),
{
    if order.len() == 0 {
        None
    } else if occupied(m.channel(order[0])@) {
        Some(0int)
    } else {
        match first_occupied(m, order.drop_first()) {
            Some(i) => Some(i + 1),
            None => None,
        }
    }
}

/// Law: the multiplexed scan picks the earliest occupied channel of the
/// group's fixed order, and picks nothing only when every listed channel
/// is empty.
pub proof fn lemma_first_occupied_is_least(m: SHARED_MEM, order: Seq<MsgChannel>)
    ensures
        match first_occupied(m, order) {
            Some(k) => 0 <= k < order.len() && occupied(m.channel(order[k])@) && forall|j: int|
                0 <= j < k ==> !occupied(m.channel(order[j])@),
            None => forall|j: int| 0 <= j < order.len() ==> !occupied(m.channel(order[j])@),
        },
    decreases order.len(),
{
    if order.len() > 0 && !occupied(m.channel(order[0])@) {
        lemma_first_occupied_is_least(m, order.drop_first());
        match first_occupied(m, order.drop_first()) {
            Some(k) => {
                assert(order.drop_first()[k] == order[k + 1]);
                assert forall|j: int| 0 <= j < k + 1 implies !occupied(m.channel(order[j])@) by {
                    if j > 0 {
                        assert(order.drop_first()[j - 1] == order[j]);
                    }
                }
            },
            None => {
                assert forall|j: int| 0 <= j < order.len() implies !occupied(
                    m.channel(order[j])@,
                ) by {
                    if j > 0 {
                        assert(order.drop_first()[j - 1] == order[j]);
                    }
                }
            },
        }
    }
}

/// `first_occupied` is exactly `k` whenever the first `k` listed channels are
/// empty and channel `k` is occupied.
pub proof fn lemma_first_occupied_at(m: SHARED_MEM, order: Seq<MsgChannel>, k: int)
    requires
        0 <= k < order.len(),
        occupied(m.channel(order[k])@),
        forall|j: int| 0 <= j < k ==> !occupied(m.channel(order[j])@),
    ensures
        first_occupied(m, order) == Some(k),
    decreases order.len(),
{
    if k > 0 {
        assert(order.drop_first()[k - 1] == order[k]);
        assert forall|j: int| 0 <= j < k - 1 implies !occupied(
            m.channel(order.drop_first()[j])@,
        ) by {
            assert(order.drop_first()[j] == order[j + 1]);
        }
        lemma_first_occupied_at(m, order.drop_first(), k - 1);
    }
}

/// `first_occupied` finds nothing exactly when every listed channel is empty.
pub proof fn lemma_first_occupied_none(m: SHARED_MEM, order: Seq<MsgChannel>)
    requires
        forall|j: int| 0 <= j < order.len() ==> !occupied(m.channel(order[j])@),
    ensures
        first_occupied(m, order) is None,
    decreases order.len(),
{
    if order.len() > 0 {
        assert forall|j: int| 0 <= j < order.drop_first().len() implies !occupied(
            m.channel(order.drop_first()[j])@,
        ) by {
            assert(order.drop_first()[j] == order[j + 1]);
        }
        lemma_first_occupied_none(m, order.drop_first());
    }
}

impl SHARED_MEM {
    /// Scan the listed channels in their given order, inside what one
    /// transaction sees, and consume the first pending message. Channels
    /// after the hit, and all unlisted channels, are left untouched.
    pub fn pull_first(&mut self, order: &[MsgChannel]) -> (r: Option<(MsgChannel, Vec<u8>)>)
        requires
            old(self).wf(),
        ensures
            final(self).wf(),
            first_occupied(*old(self), order@) is None ==> r is None && *final(self) == *old(
                self,
            ),
            first_occupied(*old(self), order@) matches Some(k) ==> {
                &&& r is Some
                &&& r.unwrap().0 == order@[k]
                &&& r.unwrap().1@ == payload_of(old(self).channel(order@[k])@)
                &&& final(self).channel(order@[k])@ == clear_spec(old(self).channel(order@[k])@)
                &&& forall|d: MsgChannel| d != order@[k] ==> final(self).channel(d) == old(
                    self,
                ).channel(d)
            },
    {
        let mut k: usize = 0;
        while k < order.len()
            invariant
                old(self).wf(),
                *self == *old(self),
                k <= order@.len(),
                forall|j: int| 0 <= j < k ==> !occupied(old(self).channel(order@[j])@),
            decreases order@.len() - k,
        {
            let c = order[k];
            if !self.get_channel(c).is_empty() {
                proof {
                    lemma_first_occupied_at(*old(self), order@, k as int);
                }
                let mb = self.get_channel_mut(c);
                let v = mb.pop();
                proof {
                    assert(self.channel(MsgChannel::ProcessControlRequest).wf());
                    assert(self.channel(MsgChannel::ProcessControlReply).wf());
                    assert(self.channel(MsgChannel::GraphicsRequest).wf());
                    assert(self.channel(MsgChannel::GraphicsReply).wf());
                    assert(self.channel(MsgChannel::Heartbeat).wf());
                    assert(self.channel(MsgChannel::AppStatus).wf());
                    assert(self.channel(MsgChannel::TrickleUp).wf());
                    assert(self.channel(MsgChannel::TrickleDown).wf());
                }
                return Some((c, v.unwrap()));
            }
            k += 1;
        }
        proof {
            lemma_first_occupied_none(*old(self), order@);
        }
        None
    }
}

} // verus!
