//! Wire-format codec for a binary messaging protocol's control-packet
//! framing: big-endian scalar primitives, the protocol's self-terminating
//! variable-length integer encoding, and the fixed packet header built
//! from them.

pub mod channel;
pub mod error;
pub mod packet;
