//! DALI forward-frame codec: address bytes for the four frame shapes
//! (level / command, short / group / broadcast / special) and the outcome
//! of one bus transaction.

use vstd::prelude::*;

use crate::dali_commands;

verus! {

/// Outcome of a single DALI bus transaction.
#[derive(Debug, Clone, Copy, PartialEq, Eq, Structural)]
pub enum DaliBusResult {
    NoReply,
    ReceiveCollision,
    TransmitCollision,
    Value8(u8),
    Value16(u16),
    Value24(u32),
}

/// One 16-bit forward frame as handed to a transport, together with the
/// bus it is sent on and whether it is sent twice (DALI configuration
/// commands are repeated within 100 ms).
#[derive(Debug, Clone, Copy, PartialEq, Eq, Structural)]
pub struct DaliFrame {
    pub bus: usize,
    pub b1: u8,
    pub b2: u8,
    pub twice: bool,
}

pub open spec fn spec_is_collision(r: DaliBusResult) -> bool {
    r is ReceiveCollision || r is TransmitCollision
}

/// Whether a command code denotes a special (addressless) command.
pub open spec fn spec_is_special(command: u16) -> bool {
    command & dali_commands::DALI_SPECIAL != 0
}

/// First byte of a level frame addressed to one short address.
pub open spec fn spec_light_short_address(short_address: u8) -> u8
    recommends
        short_address < 64,
{
    (2 * short_address) as u8
}

/// First byte of a level frame addressed to a group.
pub open spec fn spec_light_group_address(group: u8) -> u8
    recommends
        group < 16,
{
    (0x80 + 2 * group) as u8
}

/// First byte of a command frame addressed to one short address.
pub open spec fn spec_command_short_address(short_address: u8) -> u8
    recommends
        short_address < 64,
{
    (2 * short_address + 1) as u8
}

/// First byte of a command frame addressed to a group.
pub open spec fn spec_command_group_address(group: u8) -> u8
    recommends
        group < 16,
{
    (0x80 + 2 * group + 1) as u8
}

/// First byte of a broadcast of `command`: the command byte itself for a
/// special command, the broadcast address otherwise.
pub open spec fn spec_broadcast_b1(command: u16) -> u8 {
    if spec_is_special(command) {
        (command & 0xff) as u8
    } else {
        0xff
    }
}

/// Second byte of a broadcast of `command` with parameter `parameter`.
pub open spec fn spec_broadcast_b2(command: u16, parameter: u8) -> u8 {
    if spec_is_special(command) {
        parameter
    } else {
        (command & 0xff) as u8
    }
}

pub fn is_collision(result: &DaliBusResult) -> (r: bool)
    ensures
        r == spec_is_collision(*result),
{
    matches!(result, DaliBusResult::ReceiveCollision | DaliBusResult::TransmitCollision)
}

pub fn to_light_short_address(channel: u8) -> (b1: u8)
    requires
        channel < 64,
    ensures
        b1 == spec_light_short_address(channel),
        b1 & 1 == 0,
{
    let b1 = 2 * channel;
    proof {
        assert(channel < 64 ==> (2 * channel) as u8 & 1 == 0) by (bit_vector);
    }
    b1
}

pub fn to_light_group_address(group: u8) -> (b1: u8)
    requires
        group < 16,
    ensures
        b1 == spec_light_group_address(group),
        b1 & 1 == 0,
{
    let b1 = 0x80 + 2 * group;
    proof {
        assert(group < 16 ==> (0x80 + 2 * group) as u8 & 1 == 0) by (bit_vector);
    }
    b1
}

pub fn to_command_short_address(channel: u8) -> (b1: u8)
    requires
        channel < 64,
    ensures
        b1 == spec_command_short_address(channel),
        b1 & 1 == 1,
{
    let b1 = 2 * channel + 1;
    proof {
        assert(channel < 64 ==> (2 * channel + 1) as u8 & 1 == 1) by (bit_vector);
    }
    b1
}

pub fn to_command_group_address(group: u8) -> (b1: u8)
    requires
        group < 16,
    ensures
        b1 == spec_command_group_address(group),
        b1 & 1 == 1,
{
    let b1 = 0x80 + 2 * group + 1;
    proof {
        assert(group < 16 ==> (0x80 + 2 * group + 1) as u8 & 1 == 1) by (bit_vector);
    }
    b1
}

/// Both bytes of a broadcast frame for `command` with `parameter`.
pub fn broadcast_frame_bytes(command: u16, parameter: u8) -> (b: (u8, u8))
    ensures
        b.0 == spec_broadcast_b1(command),
        b.1 == spec_broadcast_b2(command, parameter),
{
    if command & dali_commands::DALI_SPECIAL != 0 {
        ((command & 0xff) as u8, parameter)
    } else {
        (0xff, (command & 0xff) as u8)
    }
}

/// Every forward frame the codec can build carries its low address bit
/// according to its shape: level frames end in 0, command frames (to a
/// short address, to a group, or broadcast) end in 1.
pub proof fn lemma_forward_frame_low_bit(short_address: u8, group: u8, command: u16)
    requires
        short_address < 64,
        group < 16,
    ensures
        spec_light_short_address(short_address) & 1 == 0,
        spec_light_group_address(group) & 1 == 0,
        spec_command_short_address(short_address) & 1 == 1,
        spec_command_group_address(group) & 1 == 1,
        !spec_is_special(command) ==> spec_broadcast_b1(command) & 1 == 1,
{
    let a = short_address;
    let g = group;
    assert(a < 64 ==> (2 * a) as u8 & 1 == 0) by (bit_vector);
    assert(g < 16 ==> (0x80 + 2 * g) as u8 & 1 == 0) by (bit_vector);
    assert(a < 64 ==> (2 * a + 1) as u8 & 1 == 1) by (bit_vector);
    assert(g < 16 ==> (0x80 + 2 * g + 1) as u8 & 1 == 1) by (bit_vector);
    assert(0xffu8 & 1 == 1) by (bit_vector);
}

} // verus!
