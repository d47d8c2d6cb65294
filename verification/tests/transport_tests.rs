use shmem_channel::msg_channel::{MSG_CHANNEL, MSG_CHANNEL_SIZE, PAYLOAD_CAPACITY};
use shmem_channel::shared_mem::{MsgChannel, SHARED_MEM, SHARED_MEM_SIZE};
use shmem_channel::transport::{AppChannel, MemoryAppChannel, Message};

fn mailbox_bytes(mb: &MSG_CHANNEL) -> Vec<u8> {
    let mut out: Vec<u8> = Vec::new();
    mb.append_to(&mut out);
    out
}

#[test]
fn push_then_receive_returns_original_bytes() {
    let mut ch = MemoryAppChannel::new();
    let payload = b"hello worker".to_vec();
    let rejected = ch.push(Message {
        channel: MsgChannel::ProcessControlRequest,
        payload: payload.clone(),
    });
    assert!(rejected.is_none());
    let got = ch.receive(MsgChannel::ProcessControlRequest);
    assert_eq!(got, Some(payload));
    assert!(ch.is_empty(MsgChannel::ProcessControlRequest));
}

#[test]
fn force_push_truncates_at_first_nul() {
    let mut mb = MSG_CHANNEL::new();
    mb.force_push(&[65, 66, 0, 67, 68]);
    assert!(!mb.is_empty());
    assert_eq!(mb.peek(), Some(vec![65, 66]));
}

#[test]
fn force_push_empty_payload_marks_occupied() {
    let mut mb = MSG_CHANNEL::new();
    assert!(mb.is_empty());
    mb.force_push(&[]);
    assert!(!mb.is_empty());
    assert_eq!(mb.peek(), Some(Vec::new()));
}

#[test]
fn force_push_overwrites_in_place() {
    let mut mb = MSG_CHANNEL::new();
    mb.force_push(b"first message");
    mb.force_push(b"second");
    assert_eq!(mb.peek(), Some(b"second".to_vec()));
}

#[test]
fn push_on_occupied_rejects_and_keeps_occupant() {
    let mut mb = MSG_CHANNEL::new();
    assert_eq!(mb.push(b"occupant".to_vec()), None);
    let before = mb.peek();
    assert_eq!(before, Some(b"occupant".to_vec()));
    let rejected = mb.push(b"late arrival".to_vec());
    assert_eq!(rejected, Some(b"late arrival".to_vec()));
    assert_eq!(mb.peek(), before);
}

#[test]
fn pop_always_leaves_empty() {
    let mut mb = MSG_CHANNEL::new();
    assert_eq!(mb.pop(), None);
    assert!(mb.is_empty());
    mb.force_push(b"x");
    assert_eq!(mb.pop(), Some(b"x".to_vec()));
    assert!(mb.is_empty());
    assert_eq!(mb.pop(), None);
}

#[test]
fn clear_is_idempotent() {
    let mut once = MSG_CHANNEL::new();
    once.force_push(b"pending");
    let mut twice = MSG_CHANNEL::new();
    twice.force_push(b"pending");
    once.clear();
    twice.clear();
    twice.clear();
    assert!(once.is_empty());
    assert!(twice.is_empty());
    assert_eq!(mailbox_bytes(&once), mailbox_bytes(&twice));
}

#[test]
fn force_message_roundtrip_on_its_channel() {
    let mut ch = MemoryAppChannel::new();
    ch.force(Message { channel: MsgChannel::Heartbeat, payload: b"<heartbeat/>".to_vec() });
    assert!(!ch.is_empty(MsgChannel::Heartbeat));
    assert!(ch.is_empty(MsgChannel::AppStatus));
    assert_eq!(ch.receive(MsgChannel::Heartbeat), Some(b"<heartbeat/>".to_vec()));
    assert!(ch.is_empty(MsgChannel::Heartbeat));
}

#[test]
fn force_overwrites_pending_message() {
    let mut ch = MemoryAppChannel::new();
    assert!(ch
        .push(Message { channel: MsgChannel::TrickleUp, payload: b"stale".to_vec() })
        .is_none());
    ch.force(Message { channel: MsgChannel::TrickleUp, payload: b"fresh".to_vec() });
    assert_eq!(ch.receive(MsgChannel::TrickleUp), Some(b"fresh".to_vec()));
}

#[test]
fn pull_returns_earlier_channel_of_group_order() {
    let order = [MsgChannel::ProcessControlRequest, MsgChannel::TrickleDown];
    let mut ch = MemoryAppChannel::new();
    assert!(ch
        .push_unchecked((MsgChannel::TrickleDown, b"later in order".to_vec()))
        .is_none());
    assert!(ch
        .push_unchecked((MsgChannel::ProcessControlRequest, b"earlier in order".to_vec()))
        .is_none());
    let got = ch.pull_control(&order);
    assert_eq!(got, Some((MsgChannel::ProcessControlRequest, b"earlier in order".to_vec())));
    // the later channel is untouched, still occupied
    assert!(!ch.is_empty(MsgChannel::TrickleDown));
    let got = ch.pull_control(&order);
    assert_eq!(got, Some((MsgChannel::TrickleDown, b"later in order".to_vec())));
    assert_eq!(ch.pull_control(&order), None);
}

#[test]
fn pull_status_scans_its_own_order() {
    let order = [MsgChannel::AppStatus, MsgChannel::TrickleUp, MsgChannel::Heartbeat];
    let mut ch = MemoryAppChannel::new();
    assert_eq!(ch.pull_status(&order), None);
    assert!(ch.push_unchecked((MsgChannel::Heartbeat, b"beat".to_vec())).is_none());
    assert_eq!(ch.pull_status(&order), Some((MsgChannel::Heartbeat, b"beat".to_vec())));
    assert_eq!(ch.pull_status(&order), None);
}

#[test]
fn oversized_payload_truncates_to_capacity() {
    assert_eq!(MSG_CHANNEL_SIZE, 1024);
    assert_eq!(PAYLOAD_CAPACITY, 1020);
    let mut mb = MSG_CHANNEL::new();
    assert_eq!(mb.push(vec![b'A'; 2000]), None);
    assert!(!mb.is_empty());
    assert_eq!(mb.peek(), Some(vec![b'A'; 1020]));
}

#[test]
fn payload_at_capacity_is_kept_whole() {
    let mut mb = MSG_CHANNEL::new();
    mb.force_push(&vec![b'B'; 1020]);
    assert_eq!(mb.peek(), Some(vec![b'B'; 1020]));
}

#[test]
fn fresh_region_is_all_zero_bytes() {
    let region = SHARED_MEM::new();
    let bytes = region.to_bytes();
    assert_eq!(bytes.len(), SHARED_MEM_SIZE);
    assert_eq!(bytes, vec![0u8; 8 * 1024]);
}

#[test]
fn zero_bytes_reopen_as_all_empty_mailboxes() {
    let zeros = vec![0u8; SHARED_MEM_SIZE];
    let region = SHARED_MEM::from_bytes(&zeros);
    let all = [
        MsgChannel::ProcessControlRequest,
        MsgChannel::ProcessControlReply,
        MsgChannel::GraphicsRequest,
        MsgChannel::GraphicsReply,
        MsgChannel::Heartbeat,
        MsgChannel::AppStatus,
        MsgChannel::TrickleUp,
        MsgChannel::TrickleDown,
    ];
    for c in all {
        assert!(region.get_channel(c).is_empty());
    }
}

#[test]
fn region_bytes_roundtrip_preserves_contents() {
    let mut region = SHARED_MEM::new();
    region.get_channel_mut(MsgChannel::GraphicsReply).force_push(b"frame done");
    let bytes = region.to_bytes();
    let reopened = SHARED_MEM::from_bytes(&bytes);
    assert_eq!(reopened.to_bytes(), bytes);
    assert_eq!(
        reopened.get_channel(MsgChannel::GraphicsReply).peek(),
        Some(b"frame done".to_vec())
    );
    assert!(reopened.get_channel(MsgChannel::GraphicsRequest).is_empty());
}

#[test]
fn channel_slots_sit_at_fixed_offsets() {
    let mut region = SHARED_MEM::new();
    region.get_channel_mut(MsgChannel::TrickleDown).force_push(b"TD");
    let bytes = region.to_bytes();
    let off = SHARED_MEM::channel_offset(MsgChannel::TrickleDown);
    assert_eq!(off, 7 * 1024);
    assert_eq!(bytes[off], 1); // occupancy flag
    assert_eq!(bytes[off + 1], b'T');
    assert_eq!(bytes[off + 2], b'D');
    assert_eq!(bytes[off + 3], 0); // NUL terminator
    assert_eq!(bytes[off + MSG_CHANNEL_SIZE - 1], 0); // guard byte
    assert_eq!(SHARED_MEM::channel_offset(MsgChannel::ProcessControlRequest), 0);
    assert_eq!(SHARED_MEM::channel_offset(MsgChannel::Heartbeat), 4 * 1024);
}

#[test]
fn two_sequential_pushes_accept_then_reject() {
    let mut ch = MemoryAppChannel::new();
    let first = Message { channel: MsgChannel::AppStatus, payload: b"first".to_vec() };
    let second = Message { channel: MsgChannel::AppStatus, payload: b"second".to_vec() };
    assert!(ch.push(first).is_none());
    let back = ch.push(second);
    assert!(back.is_some());
    let back = back.unwrap();
    assert_eq!(back.channel, MsgChannel::AppStatus);
    assert_eq!(back.payload, b"second".to_vec());
    // the occupant is intact
    assert_eq!(ch.peek(MsgChannel::AppStatus), Some(b"first".to_vec()));
}

#[test]
fn unchecked_variants_move_raw_bytes() {
    let mut ch = MemoryAppChannel::new();
    assert!(ch.push_unchecked((MsgChannel::GraphicsRequest, b"raw".to_vec())).is_none());
    let rejected = ch.push_unchecked((MsgChannel::GraphicsRequest, b"again".to_vec()));
    assert_eq!(rejected, Some((MsgChannel::GraphicsRequest, b"again".to_vec())));
    ch.force_unchecked((MsgChannel::GraphicsRequest, b"forced".to_vec()));
    assert_eq!(ch.receive(MsgChannel::GraphicsRequest), Some(b"forced".to_vec()));
}

#[test]
fn clear_on_transport_drops_pending_message() {
    let mut ch = MemoryAppChannel::new();
    assert!(ch
        .push(Message { channel: MsgChannel::TrickleDown, payload: b"pending".to_vec() })
        .is_none());
    ch.clear(MsgChannel::TrickleDown);
    assert!(ch.is_empty(MsgChannel::TrickleDown));
    ch.clear(MsgChannel::TrickleDown);
    assert!(ch.is_empty(MsgChannel::TrickleDown));
    assert_eq!(ch.receive(MsgChannel::TrickleDown), None);
}

#[test]
fn peek_does_not_consume() {
    let mut ch = MemoryAppChannel::new();
    assert_eq!(ch.peek(MsgChannel::ProcessControlReply), None);
    assert!(ch
        .push(Message { channel: MsgChannel::ProcessControlReply, payload: b"reply".to_vec() })
        .is_none());
    assert_eq!(ch.peek(MsgChannel::ProcessControlReply), Some(b"reply".to_vec()));
    assert_eq!(ch.peek(MsgChannel::ProcessControlReply), Some(b"reply".to_vec()));
    assert!(!ch.is_empty(MsgChannel::ProcessControlReply));
}

#[test]
fn default_backend_and_mailbox_start_empty() {
    let mut ch = MemoryAppChannel::default();
    assert!(ch.is_empty(MsgChannel::Heartbeat));
    let mb = MSG_CHANNEL::default();
    assert!(mb.is_empty());
    assert_eq!(mb.peek(), None);
    let region = SHARED_MEM::default();
    assert_eq!(region.to_bytes(), vec![0u8; SHARED_MEM_SIZE]);
}
