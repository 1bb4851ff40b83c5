//! Core of an EtherCAT master for small controllers: a cooperative cyclic
//! engine that multiplexes protocol state machines over one staging buffer,
//! together with the frame codec and two of the state machines.
//!
//! The library performs no I/O. A caller owns the raw Ethernet device and the
//! countdown timer, hands received frames in, and sends the frames that the
//! interface packs.

pub mod cyclic;
pub mod error;
pub mod ethercat_frame;
pub mod interface;
pub mod mailbox;
pub mod network;
pub mod packet;
pub mod register;
pub mod slave;

use vstd::prelude::*;

verus! {

pub const MAILBOX_REQUEST_RETRY_TIMEOUT_DEFAULT_MS: u32 = 100;

pub const MAILBOX_RESPONSE_RETRY_TIMEOUT_DEFAULT_MS: u32 = 2000;

/// Timeout of Init -> PreOp and of Init -> Boot.
pub const PREOP_TIMEOUT_DEFAULT_MS: u32 = 3000;

/// Timeout of SafeOp -> Op and of PreOp -> SafeOp.
pub const SAFEOP_OP_TIMEOUT_DEFAULT_MS: u32 = 10000;

/// Timeout of any state -> Init.
pub const BACK_TO_INIT_TIMEOUT_DEFAULT_MS: u32 = 5000;

/// Timeout of Op -> SafeOp.
pub const BACK_TO_SAFEOP_TIMEOUT_DEFAULT_MS: u32 = 200;

pub const LOGICAL_START_ADDRESS: u32 = 0;

} // verus!
