//! Host-side runtime core for a sandboxed guest compute unit: a capability
//! registry, a cooperative task executor, event/result bookkeeping over a
//! shared output buffer, the guest-facing dispatch operations, and the
//! chunked input-transfer buffer.

pub mod buffers;
pub mod executor;
pub mod iomod;
pub mod materials;
