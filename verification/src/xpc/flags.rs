//! Message flags.

use vstd::prelude::*;

verus! {

/// Set on every message.
pub const ALWAYS_SET: u32 = 0x1;

/// The message carries a body.
pub const DATA_PRESENT: u32 = 0x100;

/// The sender waits for a reply.
pub const WANTING_REPLY: u32 = 0x1_0000;

/// The message answers an earlier one.
pub const REPLY: u32 = 0x2_0000;

/// Opens a stream.
pub const INIT_HANDSHAKE: u32 = 0x40_0000;

} // verus!
