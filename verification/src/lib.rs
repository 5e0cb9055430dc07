//! Decoding and encoding of ASTM F3411 Remote ID broadcasts, the framed
//! USB protocol of the receiver, and the receiver's pure decision logic.

pub mod beacon;
pub mod buttons;
pub mod cobs;
pub mod console;
pub mod encode;
pub mod fuzz;
pub mod host;
pub mod lines;
pub mod message;
pub mod obs;
pub mod pack;
pub mod proto;
pub mod radio;
pub mod status;
pub mod tracks;
pub mod ui;
pub mod units;
pub mod wire;

use vstd::prelude::*;

verus! {

/// Size of one encoded Remote ID message.
pub const MESSAGE_SIZE: usize = 25;

/// Most messages a message pack may hold.
pub const MAX_PACK_MESSAGES: usize = 9;

/// Organizationally unique identifier of ASTM in vendor-specific elements.
pub const ASTM_OUI: [u8; 3] = [0xFA, 0x0B, 0xBC];

/// OUI type of an Open Drone ID element.
pub const ODID_OUI_TYPE: u8 = 0x0D;

/// 2019-01-01T00:00:00Z in Unix seconds: the epoch of Remote ID timestamps.
pub const ODID_EPOCH_UNIX_S: u64 = 1_546_300_800;

} // verus!
