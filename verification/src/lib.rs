//! A fixed-layout shared-memory transport: eight named single-slot mailboxes
//! exchanged between a controlling process and the application it supervises.
//!
//! The mailbox framing, the byte layout of the shared region, and the
//! transactional operations are verified here; the memory-mapped backing
//! (file I/O and `mmap`) lives outside the verified core and speaks to it
//! through the byte-layout functions of the shared-region module.

pub mod msg_channel;
pub mod shared_mem;
pub mod transport;
