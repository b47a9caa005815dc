//! Payloads of the controller's command topic and of the per-light
//! reply topic: the command envelope, the device status byte with its
//! human rendering, and the query reply.

use vstd::prelude::*;

use crate::dali_atx::{byte_to_hex_lower, spec_hex_digit_lower};
use crate::text::string_from_ascii;

verus! {

/// One inbound command, named by the `command` discriminator of its
/// JSON envelope.
#[derive(Debug, Clone)]
pub enum DaliCommand {
    SetLightBrightness { bus: usize, address: u8, value: u8 },
    SetGroupBrightness { bus: usize, group: u8, value: u8 },
    UpdateBusStatus,
    RenameBus { bus: usize, name: String },
    RenameLight { bus: usize, address: u8, name: String },
    RenameGroup { bus: usize, group: u8, name: String },
    NewGroup { bus: usize },
    AddToGroup { bus: usize, group: u8, address: u8 },
    MatchGroup { bus: usize, group: u8, pattern: String },
    RemoveGroup { bus: usize, group: u8 },
    RemoveFromGroup { bus: usize, group: u8, address: u8 },
    FindAllLights { bus: usize },
    FindNewLights { bus: usize },
    QueryLightStatus { bus: usize, address: u8 },
    RemoveShortAddress { bus: usize, address: u8 },
    SetLightFadeTime { bus: usize, address: u8, fade_time: u8 },
    SetGroupFadeTime { bus: usize, group: u8, fade_time: u8 },
}

/// The status byte a device reports: 8 flag bits.
#[derive(Debug, Clone, Copy, PartialEq, Eq, Structural)]
pub struct LightStatus(pub u8);

/// The flag names of a status byte, each with a leading space, in bit
/// order.
pub open spec fn spec_status_flags(v: u8) -> Seq<char> {
    (if v & 0x01 != 0 {
        " Not-OK"@
    } else {
        Seq::<char>::empty()
    }) + (if v & 0x02 != 0 {
        " Lamp-Failure"@
    } else {
        Seq::<char>::empty()
    }) + (if v & 0x04 != 0 {
        " Lamp-ON"@
    } else {
        Seq::<char>::empty()
    }) + (if v & 0x08 != 0 {
        " Limit-error"@
    } else {
        Seq::<char>::empty()
    }) + (if v & 0x10 != 0 {
        " Fade-In-Progress"@
    } else {
        Seq::<char>::empty()
    }) + (if v & 0x20 != 0 {
        " Reset-state"@
    } else {
        Seq::<char>::empty()
    }) + (if v & 0x40 != 0 {
        " Missing-short-address"@
    } else {
        Seq::<char>::empty()
    }) + (if v & 0x80 != 0 {
        " Power-Failure"@
    } else {
        Seq::<char>::empty()
    })
}

/// The human rendering of a status byte: `0x`, two lowercase hex
/// digits, a colon, and the flag names.
pub open spec fn spec_status_description(v: u8) -> Seq<char> {
    "0x"@ + seq![
        spec_hex_digit_lower(v / 16) as char,
        spec_hex_digit_lower(v % 16) as char,
    ] + ": "@ + spec_status_flags(v)
}

impl LightStatus {
    /// The raw status byte.
    pub fn value(&self) -> (v: u8)
        ensures
            v == self.0,
    {
        self.0
    }

    /// The human rendering of this status.
    pub fn description(&self) -> (s: String)
        ensures
            s@ == spec_status_description(self.0),
    {
        let mut s = String::from_str("0x");
        let hex = status_hex(self.0);
        s.append(hex.as_str());
        s.append(": ");
        let flags = status_flags(self.0);
        s.append(flags.as_str());
        proof {
            assert(s@ =~= spec_status_description(self.0));
        }
        s
    }
}

/// The two lowercase hex digits of a status byte.
fn status_hex(v: u8) -> (s: String)
    ensures
        s@ == seq![spec_hex_digit_lower(v / 16) as char, spec_hex_digit_lower(v % 16) as char],
{
    let digits = byte_to_hex_lower(v);
    let mut hex_bytes: Vec<u8> = Vec::new();
    hex_bytes.push(digits.0);
    hex_bytes.push(digits.1);
    let hex = string_from_ascii(hex_bytes);
    proof {
        assert(hex@ =~= seq![
            spec_hex_digit_lower(v / 16) as char,
            spec_hex_digit_lower(v % 16) as char,
        ]);
    }
    hex
}

/// The flag names of a status byte, built in bit order.
#[verifier::rlimit(100)]
fn status_flags(v: u8) -> (s: String)
    ensures
        s@ == spec_status_flags(v),
{
    let ghost p1 = if v & 0x01 != 0 { " Not-OK"@ } else { Seq::<char>::empty() };
    let ghost p2 = if v & 0x02 != 0 { " Lamp-Failure"@ } else { Seq::<char>::empty() };
    let ghost p3 = if v & 0x04 != 0 { " Lamp-ON"@ } else { Seq::<char>::empty() };
    let ghost p4 = if v & 0x08 != 0 { " Limit-error"@ } else { Seq::<char>::empty() };
    let ghost p5 = if v & 0x10 != 0 { " Fade-In-Progress"@ } else { Seq::<char>::empty() };
    let ghost p6 = if v & 0x20 != 0 { " Reset-state"@ } else { Seq::<char>::empty() };
    let ghost p7 = if v & 0x40 != 0 { " Missing-short-address"@ } else { Seq::<char>::empty() };
    let ghost p8 = if v & 0x80 != 0 { " Power-Failure"@ } else { Seq::<char>::empty() };
    let mut s = String::new();
    if v & 0x01 != 0 {
        s.append(" Not-OK");
    }
    proof {
        assert(s@ =~= p1);
    }
    if v & 0x02 != 0 {
        s.append(" Lamp-Failure");
    }
    proof {
        assert(s@ =~= p1 + p2);
    }
    if v & 0x04 != 0 {
        s.append(" Lamp-ON");
    }
    proof {
        assert(s@ =~= p1 + p2 + p3);
    }
    if v & 0x08 != 0 {
        s.append(" Limit-error");
    }
    proof {
        assert(s@ =~= p1 + p2 + p3 + p4);
    }
    if v & 0x10 != 0 {
        s.append(" Fade-In-Progress");
    }
    proof {
        assert(s@ =~= p1 + p2 + p3 + p4 + p5);
    }
    if v & 0x20 != 0 {
        s.append(" Reset-state");
    }
    proof {
        assert(s@ =~= p1 + p2 + p3 + p4 + p5 + p6);
    }
    if v & 0x40 != 0 {
        s.append(" Missing-short-address");
    }
    proof {
        assert(s@ =~= p1 + p2 + p3 + p4 + p5 + p6 + p7);
    }
    if v & 0x80 != 0 {
        s.append(" Power-Failure");
    }
    proof {
        assert(s@ =~= p1 + p2 + p3 + p4 + p5 + p6 + p7 + p8);
        assert(s@ =~= spec_status_flags(v));
    }
    s
}

/// The reply published for a `QueryLightStatus` command.
#[derive(Debug, Clone)]
pub struct QueryLightReply {
    pub controller: String,
    pub bus: usize,
    pub address: u8,
    pub failure: bool,
    pub status: u8,
    pub description: String,
}

impl QueryLightReply {
    /// A successful reply carrying the status byte and its rendering.
    pub fn new(controller: &str, bus: usize, address: u8, status: LightStatus) -> (r:
        QueryLightReply)
        ensures
            r.controller@ == controller@,
            r.bus == bus,
            r.address == address,
            r.failure == false,
            r.status == status.0,
            r.description@ == spec_status_description(status.0),
    {
        QueryLightReply {
            controller: String::from_str(controller),
            bus,
            address,
            failure: false,
            status: status.value(),
            description: status.description(),
        }
    }

    /// A failure reply carrying the error text.
    pub fn new_failure(controller: &str, bus: usize, address: u8, error: &str) -> (r:
        QueryLightReply)
        ensures
            r.controller@ == controller@,
            r.bus == bus,
            r.address == address,
            r.failure == true,
            r.status == 0,
            r.description@ == error@,
    {
        QueryLightReply {
            controller: String::from_str(controller),
            bus,
            address,
            failure: true,
            status: 0,
            description: String::from_str(error),
        }
    }
}

} // verus!
