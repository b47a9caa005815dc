//! DALI command codes (IEC 62386-102).
//!
//! The low 8 bits are the command byte.  The `0x100` flag marks a special
//! command: its frame carries the command byte first and a parameter second,
//! instead of an address byte and a command byte.

use vstd::prelude::*;

verus! {

/// Flag marking a special (addressless) command code.
pub const DALI_SPECIAL: u16 = 0x100;

pub const DALI_ADD_TO_GROUP0: u16 = 0x60;
pub const DALI_ADD_TO_GROUP15: u16 = 0x6f;
pub const DALI_REMOVE_FROM_GROUP0: u16 = 0x70;
pub const DALI_REMOVE_FROM_GROUP15: u16 = 0x7f;
pub const DALI_SET_SHORT_ADDRESS: u16 = 0x80;
pub const DALI_QUERY_STATUS: u16 = 0x90;
pub const DALI_QUERY_GROUPS_0_7: u16 = 0xc0;
pub const DALI_QUERY_GROUPS_8_15: u16 = 0xc1;
pub const DALI_SET_FADE_TIME: u16 = 0x2e;
pub const DALI_SET_EXTENDED_FADE_TIME: u16 = 0x30;

pub const DALI_TERMINATE: u16 = 0x1a1;
pub const DALI_DATA_TRANSFER_REGISTER0: u16 = 0x1a3;
pub const DALI_INITIALISE: u16 = 0x1a5;
pub const DALI_RANDOMISE: u16 = 0x1a7;
pub const DALI_COMPARE: u16 = 0x1a9;
pub const DALI_WITHDRAW: u16 = 0x1ab;
pub const DALI_SEARCHADDRH: u16 = 0x1b1;
pub const DALI_SEARCHADDRM: u16 = 0x1b3;
pub const DALI_SEARCHADDRL: u16 = 0x1b5;
pub const DALI_PROGRAM_SHORT_ADDRESS: u16 = 0x1b7;

} // verus!
