//! An in-process emulation of a bank of DALI ballasts, one state
//! machine per light, behind the same transport trait the hardware
//! uses.  Every state transition is specified by `spec_ballast_after`;
//! only the randomised address is drawn from outside.

use vstd::prelude::*;

use crate::config_payload::{vec_contains, BusConfig, BusStatus, DaliConfig};
use crate::dali_commands;
use crate::dali_manager::{DaliController, DaliManagerError};
use crate::frames::{DaliBusResult, DaliFrame};

verus! {

/// One emulated ballast.
#[derive(Debug, Clone, Copy, PartialEq, Eq, Structural)]
pub struct DaliLightEmulator {
    pub light_number: usize,
    pub initialize_mode: bool,
    pub brightness: u8,
    pub short_address: u8,
    pub random_address: u32,
    pub search_address: u32,
    pub enable_compare: bool,
    pub selected: bool,
    pub group_mask: u16,
    pub dtr0: u8,
}

/// Whether a first byte carries a special (addressless) command.
pub open spec fn spec_is_special_b1(b1: u8) -> bool {
    0xa0 <= b1 && b1 <= 0xfb
}

/// Whether a frame with first byte `b1` addresses this ballast, by its
/// short-address, group or broadcast bits.
pub open spec fn spec_addressed(s: DaliLightEmulator, b1: u8) -> bool {
    if b1 & 0x80 == 0 {
        b1 >> 1 == s.short_address
    } else if b1 & 0xe0 == 0x80 {
        (1u16 << ((b1 & 0x1e) >> 1)) & s.group_mask != 0
    } else {
        true
    }
}

/// The ballast state after executing `command` with `parameter`;
/// `rnd` is the address RANDOMISE draws.
pub open spec fn spec_ballast_after_command(
    s: DaliLightEmulator,
    command: u16,
    parameter: u8,
    rnd: u32,
) -> DaliLightEmulator {
    if dali_commands::DALI_ADD_TO_GROUP0 <= command && command
        <= dali_commands::DALI_ADD_TO_GROUP15 {
        DaliLightEmulator {
            group_mask: s.group_mask | (1u16 << (command - dali_commands::DALI_ADD_TO_GROUP0)),
            ..s
        }
    } else if dali_commands::DALI_REMOVE_FROM_GROUP0 <= command && command
        <= dali_commands::DALI_REMOVE_FROM_GROUP15 {
        DaliLightEmulator {
            group_mask: s.group_mask & !(1u16 << (command
                - dali_commands::DALI_REMOVE_FROM_GROUP0)),
            ..s
        }
    } else if command == dali_commands::DALI_SET_SHORT_ADDRESS {
        if s.dtr0 < 63 {
            DaliLightEmulator { short_address: s.dtr0, ..s }
        } else if s.dtr0 == 0xff {
            DaliLightEmulator { short_address: 0xff, ..s }
        } else {
            s
        }
    } else if command == dali_commands::DALI_TERMINATE {
        DaliLightEmulator { initialize_mode: false, enable_compare: false, ..s }
    } else if command == dali_commands::DALI_DATA_TRANSFER_REGISTER0 {
        DaliLightEmulator { dtr0: parameter, ..s }
    } else if command == dali_commands::DALI_INITIALISE {
        if (parameter == 0xff && s.short_address == 0xff) || parameter == 0 || ((parameter & 0x01)
            != 0 && (parameter >> 1) == s.short_address) {
            DaliLightEmulator { initialize_mode: true, enable_compare: true, selected: false, ..s }
        } else {
            s
        }
    } else if command == dali_commands::DALI_RANDOMISE {
        DaliLightEmulator { random_address: rnd, ..s }
    } else if command == dali_commands::DALI_COMPARE {
        if s.enable_compare {
            DaliLightEmulator { selected: s.random_address == s.search_address, ..s }
        } else {
            s
        }
    } else if command == dali_commands::DALI_WITHDRAW {
        if s.search_address == s.random_address {
            DaliLightEmulator { enable_compare: false, ..s }
        } else {
            s
        }
    } else if command == dali_commands::DALI_SEARCHADDRL {
        DaliLightEmulator {
            search_address: (s.search_address & 0xffff00) | (parameter as u32),
            ..s
        }
    } else if command == dali_commands::DALI_SEARCHADDRM {
        DaliLightEmulator {
            search_address: (s.search_address & 0xff00ff) | ((parameter as u32) << 8),
            ..s
        }
    } else if command == dali_commands::DALI_SEARCHADDRH {
        DaliLightEmulator {
            search_address: (s.search_address & 0x00ffff) | ((parameter as u32) << 16),
            ..s
        }
    } else if command == dali_commands::DALI_PROGRAM_SHORT_ADDRESS {
        if s.search_address == s.random_address {
            DaliLightEmulator {
                short_address: if parameter == 0xff {
                    0xff
                } else {
                    (parameter >> 1) as u8
                },
                ..s
            }
        } else {
            s
        }
    } else {
        s
    }
}

/// The ballast state after receiving the frame `(b1, b2)`.
pub open spec fn spec_ballast_after(
    s: DaliLightEmulator,
    b1: u8,
    b2: u8,
    rnd: u32,
) -> DaliLightEmulator {
    if b1 & 0x01 == 0 && !spec_is_special_b1(b1) {
        if spec_addressed(s, b1) {
            DaliLightEmulator { brightness: b2, ..s }
        } else {
            s
        }
    } else if spec_is_special_b1(b1) {
        spec_ballast_after_command(s, 0x100u16 | (b1 as u16), b2, rnd)
    } else if spec_addressed(s, b1) {
        spec_ballast_after_command(s, b2 as u16, b2, rnd)
    } else {
        s
    }
}

/// The status byte a ballast reports: the lamp-on flag when its
/// brightness is nonzero.
pub open spec fn spec_ballast_status(s: DaliLightEmulator) -> u8 {
    if s.brightness > 0 {
        0x04
    } else {
        0x00
    }
}

/// The reply a ballast in state `s` gives to the frame `(b1, b2)`: a
/// COMPARE it takes part in, or a QUERY STATUS addressed to it.
pub open spec fn spec_ballast_reply(s: DaliLightEmulator, b1: u8, b2: u8) -> Option<u8> {
    if spec_is_special_b1(b1) && (0x100u16 | (b1 as u16)) == dali_commands::DALI_COMPARE
        && s.enable_compare && s.random_address <= s.search_address {
        Some(0xff)
    } else if b1 & 0x01 == 1 && !spec_is_special_b1(b1) && spec_addressed(s, b1) && b2 as u16
        == dali_commands::DALI_QUERY_STATUS {
        Some(spec_ballast_status(s))
    } else if b1 & 0x01 == 1 && !spec_is_special_b1(b1) && spec_addressed(s, b1) && b2 as u16
        == dali_commands::DALI_QUERY_GROUPS_0_7 {
        Some((s.group_mask & 0xff) as u8)
    } else if b1 & 0x01 == 1 && !spec_is_special_b1(b1) && spec_addressed(s, b1) && b2 as u16
        == dali_commands::DALI_QUERY_GROUPS_8_15 {
        Some((s.group_mask >> 8) as u8)
    } else {
        None
    }
}

/// One ballast stepped by one frame: its new state follows from its
/// old one under some 24-bit random draw.
pub open spec fn spec_light_stepped(
    pre: DaliLightEmulator,
    post: DaliLightEmulator,
    b1: u8,
    b2: u8,
) -> bool {
    exists|rnd: u32| rnd <= 0xffffff && post == #[trigger] spec_ballast_after(pre, b1, b2, rnd)
}

/// Aggregation of per-ballast replies into one bus outcome: no answer,
/// a single answer's value, or a receive collision.
pub open spec fn spec_agg_reply(acc: DaliBusResult, reply: Option<u8>) -> DaliBusResult {
    match reply {
        Option::None => acc,
        Some(x) => match acc {
            DaliBusResult::NoReply => DaliBusResult::Value8(x),
            DaliBusResult::Value8(_) => DaliBusResult::ReceiveCollision,
            _ => acc,
        },
    }
}

/// The outcome of one frame on a bank of ballasts.
pub open spec fn spec_bus_result(
    lights: Seq<DaliLightEmulator>,
    b1: u8,
    b2: u8,
) -> DaliBusResult {
    lights.fold_left(
        DaliBusResult::NoReply,
        |acc: DaliBusResult, l: DaliLightEmulator| spec_agg_reply(acc, spec_ballast_reply(l, b1, b2)),
    )
}

/// Adding a light to the same group twice leaves the same membership
/// as adding it once: the on-device mask settles after the first add.
pub proof fn lemma_group_add_idempotent(s: DaliLightEmulator, command: u16, parameter: u8)
    requires
        dali_commands::DALI_ADD_TO_GROUP0 <= command <= dali_commands::DALI_ADD_TO_GROUP15,
    ensures
        spec_ballast_after_command(
            spec_ballast_after_command(s, command, parameter, 0),
            command,
            parameter,
            0,
        ) == spec_ballast_after_command(s, command, parameter, 0),
{
    let g = (command - dali_commands::DALI_ADD_TO_GROUP0) as u16;
    let m = s.group_mask;
    assert((m | (1u16 << g)) | (1u16 << g) == m | (1u16 << g)) by (bit_vector);
}

/// Removing a light from the same group twice equals removing it once.
pub proof fn lemma_group_remove_idempotent(s: DaliLightEmulator, command: u16, parameter: u8)
    requires
        dali_commands::DALI_REMOVE_FROM_GROUP0 <= command
            <= dali_commands::DALI_REMOVE_FROM_GROUP15,
    ensures
        spec_ballast_after_command(
            spec_ballast_after_command(s, command, parameter, 0),
            command,
            parameter,
            0,
        ) == spec_ballast_after_command(s, command, parameter, 0),
{
    let g = (command - dali_commands::DALI_REMOVE_FROM_GROUP0) as u16;
    let m = s.group_mask;
    assert((m & !(1u16 << g)) & !(1u16 << g) == m & !(1u16 << g)) by (bit_vector);
}

impl DaliLightEmulator {
    /// A factory-fresh ballast without a short address.
    pub fn new(light_number: usize) -> (r: DaliLightEmulator)
        ensures
            r == (DaliLightEmulator {
                light_number,
                initialize_mode: false,
                brightness: 0,
                short_address: 0xff,
                random_address: 0x0fff,
                search_address: 0,
                enable_compare: false,
                selected: false,
                group_mask: 0,
                dtr0: 0,
            }),
    {
        DaliLightEmulator {
            light_number,
            initialize_mode: false,
            brightness: 0,
            short_address: 0xff,
            random_address: 0x0fff,
            search_address: 0,
            enable_compare: false,
            selected: false,
            group_mask: 0,
            dtr0: 0,
        }
    }

    /// A ballast restored from a persisted configuration.
    pub fn new_with_config(light_number: usize, short_address: u8, group_mask: u16) -> (r:
        DaliLightEmulator)
        ensures
            r == (DaliLightEmulator {
                light_number,
                initialize_mode: false,
                brightness: 0,
                short_address,
                random_address: 0x0fff,
                search_address: 0,
                enable_compare: false,
                selected: false,
                group_mask,
                dtr0: 0,
            }),
    {
        DaliLightEmulator {
            light_number,
            initialize_mode: false,
            brightness: 0,
            short_address,
            random_address: 0x0fff,
            search_address: 0,
            enable_compare: false,
            selected: false,
            group_mask,
            dtr0: 0,
        }
    }

    fn apply_command(&mut self, command: u16, parameter: u8)
        ensures
            exists|rnd: u32|
                rnd <= 0xffffff && *final(self) == #[trigger] spec_ballast_after_command(
                    *old(self),
                    command,
                    parameter,
                    rnd,
                ),
    {
        if dali_commands::DALI_ADD_TO_GROUP0 <= command && command
            <= dali_commands::DALI_ADD_TO_GROUP15 {
            let g = command - dali_commands::DALI_ADD_TO_GROUP0;
            self.group_mask = self.group_mask | (1u16 << g);
        } else if dali_commands::DALI_REMOVE_FROM_GROUP0 <= command && command
            <= dali_commands::DALI_REMOVE_FROM_GROUP15 {
            let g = command - dali_commands::DALI_REMOVE_FROM_GROUP0;
            self.group_mask = self.group_mask & !(1u16 << g);
        } else if command == dali_commands::DALI_SET_SHORT_ADDRESS {
            if self.dtr0 < 63 {
                self.short_address = self.dtr0;
            } else if self.dtr0 == 0xff {
                self.short_address = 0xff;
            }
        } else if command == dali_commands::DALI_TERMINATE {
            self.initialize_mode = false;
            self.enable_compare = false;
        } else if command == dali_commands::DALI_DATA_TRANSFER_REGISTER0 {
            self.dtr0 = parameter;
        } else if command == dali_commands::DALI_INITIALISE {
            if (parameter == 0xff && self.short_address == 0xff) || parameter == 0 || ((parameter
                & 0x01) != 0 && (parameter >> 1) == self.short_address) {
                self.initialize_mode = true;
                self.enable_compare = true;
                self.selected = false;
            }
        } else if command == dali_commands::DALI_RANDOMISE {
            self.random_address = random_address();
        } else if command == dali_commands::DALI_COMPARE {
            if self.enable_compare {
                self.selected = self.random_address == self.search_address;
            }
        } else if command == dali_commands::DALI_WITHDRAW {
            if self.search_address == self.random_address {
                self.enable_compare = false;
            }
        } else if command == dali_commands::DALI_SEARCHADDRL {
            self.search_address = (self.search_address & 0xffff00) | (parameter as u32);
        } else if command == dali_commands::DALI_SEARCHADDRM {
            self.search_address = (self.search_address & 0xff00ff) | ((parameter as u32) << 8);
        } else if command == dali_commands::DALI_SEARCHADDRH {
            self.search_address = (self.search_address & 0x00ffff) | ((parameter as u32) << 16);
        } else if command == dali_commands::DALI_PROGRAM_SHORT_ADDRESS {
            if self.search_address == self.random_address {
                self.short_address = if parameter == 0xff {
                    0xff
                } else {
                    parameter >> 1
                };
            }
        }
        proof {
            if command == dali_commands::DALI_RANDOMISE {
                assert(*final(self) == spec_ballast_after_command(
                    *old(self),
                    command,
                    parameter,
                    final(self).random_address,
                ));
            } else {
                assert(*final(self) == spec_ballast_after_command(
                    *old(self),
                    command,
                    parameter,
                    0,
                ));
            }
        }
    }

    /// Receive one forward frame, mutate the ballast accordingly, and
    /// hand back its reply, if any.
    pub fn receive_2_bytes(&mut self, b1: u8, b2: u8) -> (reply: Option<u8>)
        ensures
            spec_light_stepped(*old(self), *final(self), b1, b2),
            reply == spec_ballast_reply(*old(self), b1, b2),
    {
        proof {
            assert(b1 & 0x01 == 0 || b1 & 0x01 == 1) by (bit_vector);
        }
        let special = 0xa0 <= b1 && b1 <= 0xfb;
        if (b1 & 0x01) == 0 && !special {
            if self.addressed(b1) {
                self.brightness = b2;
            }
            proof {
                assert(*self == spec_ballast_after(*old(self), b1, b2, 0));
            }
            None
        } else if special {
            let command = 0x100u16 | (b1 as u16);
            let reply = if command == dali_commands::DALI_COMPARE && self.enable_compare
                && self.random_address <= self.search_address {
                Some(0xff)
            } else {
                None
            };
            self.apply_command(command, b2);
            proof {
                let rnd = choose|rnd: u32|
                    rnd <= 0xffffff && *self == #[trigger] spec_ballast_after_command(
                        *old(self),
                        0x100u16 | (b1 as u16),
                        b2,
                        rnd,
                    );
                assert(*self == spec_ballast_after(*old(self), b1, b2, rnd));
            }
            reply
        } else if self.addressed(b1) {
            let reply = if b2 as u16 == dali_commands::DALI_QUERY_STATUS {
                if self.brightness > 0 {
                    Some(0x04)
                } else {
                    Some(0x00)
                }
            } else if b2 as u16 == dali_commands::DALI_QUERY_GROUPS_0_7 {
                Some((self.group_mask & 0xff) as u8)
            } else if b2 as u16 == dali_commands::DALI_QUERY_GROUPS_8_15 {
                Some((self.group_mask >> 8) as u8)
            } else {
                None
            };
            self.apply_command(b2 as u16, b2);
            proof {
                let rnd = choose|rnd: u32|
                    rnd <= 0xffffff && *self == #[trigger] spec_ballast_after_command(
                        *old(self),
                        b2 as u16,
                        b2,
                        rnd,
                    );
                assert(*self == spec_ballast_after(*old(self), b1, b2, rnd));
            }
            reply
        } else {
            proof {
                assert(*self == spec_ballast_after(*old(self), b1, b2, 0));
            }
            None
        }
    }

    fn addressed(&self, b1: u8) -> (r: bool)
        ensures
            r == spec_addressed(*self, b1),
    {
        if b1 & 0x80 == 0 {
            (b1 >> 1) == self.short_address
        } else if b1 & 0xe0 == 0x80 {
            proof {
                assert(((b1 & 0x1e) >> 1) < 16) by (bit_vector);
            }
            (1u16 << ((b1 & 0x1e) >> 1)) & self.group_mask != 0
        } else {
            true
        }
    }
}

/// Relies on `rand::random_range`: a uniform draw from the given
/// range, used as a ballast's 24-bit random address.
#[verifier::external_body]
fn random_address() -> (r: u32)
    ensures
        r <= 0xffffff,
{
    rand::random_range(0u32..=0xffffff)
}

/// One emulated bus: a bank of ballasts.
#[derive(Debug)]
pub struct DaliBusEmulator {
    pub bus_number: usize,
    pub lights: Vec<DaliLightEmulator>,
}

impl DaliBusEmulator {
    /// A bus of `light_count` factory-fresh ballasts.
    pub fn new(bus_number: usize, light_count: usize) -> (r: DaliBusEmulator)
        ensures
            r.bus_number == bus_number,
            r.lights@.len() == light_count,
            forall|i: int|
                0 <= i < light_count ==> #[trigger] r.lights@[i] == (DaliLightEmulator {
                    light_number: i as usize,
                    initialize_mode: false,
                    brightness: 0,
                    short_address: 0xff,
                    random_address: 0x0fff,
                    search_address: 0,
                    enable_compare: false,
                    selected: false,
                    group_mask: 0,
                    dtr0: 0,
                }),
    {
        let mut lights: Vec<DaliLightEmulator> = Vec::new();
        let mut light_number: usize = 0;
        while light_number < light_count
            invariant
                light_number <= light_count,
                lights@.len() == light_number,
                forall|i: int|
                    0 <= i < light_number ==> #[trigger] lights@[i] == (DaliLightEmulator {
                        light_number: i as usize,
                        initialize_mode: false,
                        brightness: 0,
                        short_address: 0xff,
                        random_address: 0x0fff,
                        search_address: 0,
                        enable_compare: false,
                        selected: false,
                        group_mask: 0,
                        dtr0: 0,
                    }),
            decreases light_count - light_number,
        {
            lights.push(DaliLightEmulator::new(light_number));
            light_number += 1;
        }
        DaliBusEmulator { bus_number, lights }
    }

    /// A bus restored from a persisted configuration: one ballast per
    /// channel, fresh but for its short address and a group mask that
    /// mirrors the configuration's memberships.
    #[verifier::loop_isolation(false)]
    pub fn new_with_config(bus_config: &BusConfig) -> (r: DaliBusEmulator)
        ensures
            r.bus_number == bus_config.bus,
            r.lights@.len() == bus_config.channels@.len(),
            forall|i: int|
                0 <= i < bus_config.channels@.len() ==> #[trigger] r.lights@[i]
                    == (DaliLightEmulator {
                    light_number: i as usize,
                    initialize_mode: false,
                    brightness: 0,
                    short_address: bus_config.channels@[i].short_address,
                    random_address: 0x0fff,
                    search_address: 0,
                    enable_compare: false,
                    selected: false,
                    group_mask: r.lights@[i].group_mask,
                    dtr0: 0,
                }),
            forall|i: int, g: u8|
                0 <= i < bus_config.channels@.len() && g < 16 ==> (
                #[trigger] crate::dali_manager::spec_mask_has(r.lights@[i].group_mask, g)
                    <==> bus_config.spec_member_of(g, bus_config.channels@[i].short_address)),
    {
        let mut lights: Vec<DaliLightEmulator> = Vec::new();
        let channel_count = bus_config.channels.len();
        let mut light_number: usize = 0;
        while light_number < channel_count
            invariant
                light_number <= channel_count,
                lights@.len() == light_number,
                forall|i: int|
                    0 <= i < light_number ==> #[trigger] lights@[i] == (DaliLightEmulator {
                        light_number: i as usize,
                        initialize_mode: false,
                        brightness: 0,
                        short_address: bus_config.channels@[i].short_address,
                        random_address: 0x0fff,
                        search_address: 0,
                        enable_compare: false,
                        selected: false,
                        group_mask: lights@[i].group_mask,
                        dtr0: 0,
                    }),
                forall|i: int, g: u8|
                    0 <= i < light_number && g < 16 ==> (
                    #[trigger] crate::dali_manager::spec_mask_has(lights@[i].group_mask, g)
                        <==> bus_config.spec_member_of(g, bus_config.channels@[i].short_address)),
            decreases channel_count - light_number,
        {
            let channel = &bus_config.channels[light_number];
            let mut group_mask: u16 = 0;
            proof {
                assert forall|g: u8| g < 16 implies !crate::dali_manager::spec_mask_has(
                    0u16,
                    g,
                ) by {
                    crate::dali_manager::lemma_mask_empty(g);
                }
            }
            let group_count = bus_config.groups.len();
            let mut gi: usize = 0;
            while gi < group_count
                invariant
                    gi <= group_count,
                    forall|g: u8|
                        g < 16 ==> (crate::dali_manager::spec_mask_has(group_mask, g)
                            <==> exists|gg: int|
                            0 <= gg < gi && (#[trigger] bus_config.groups@[gg]).group_address == g
                                && bus_config.groups@[gg].members@.contains(
                                channel.short_address,
                            )),
                decreases group_count - gi,
            {
                let group = &bus_config.groups[gi];
                let ghost pre_mask = group_mask;
                if group.group_address < 16 && vec_contains(&group.members, channel.short_address)
                {
                    group_mask = group_mask | (1u16 << group.group_address);
                }
                proof {
                    assert forall|g: u8|
                        g < 16 implies (crate::dali_manager::spec_mask_has(group_mask, g)
                        <==> exists|gg: int|
                        0 <= gg < gi + 1 && (#[trigger] bus_config.groups@[gg]).group_address == g
                            && bus_config.groups@[gg].members@.contains(
                            channel.short_address,
                        )) by {
                        if group.group_address < 16 && group.members@.contains(
                            channel.short_address,
                        ) {
                            crate::dali_manager::lemma_mask_set_bit(
                                pre_mask,
                                group.group_address,
                                g,
                            );
                            if g == group.group_address {
                                assert(bus_config.groups@[gi as int].group_address == g
                                    && bus_config.groups@[gi as int].members@.contains(
                                    channel.short_address,
                                ));
                            }
                        }
                        if crate::dali_manager::spec_mask_has(group_mask, g) {
                        } else {
                            if exists|gg: int|
                                0 <= gg < gi + 1 && (
                                #[trigger] bus_config.groups@[gg]).group_address == g
                                    && bus_config.groups@[gg].members@.contains(
                                    channel.short_address,
                                ) {
                                let gg = choose|gg: int|
                                    0 <= gg < gi + 1 && (
                                    #[trigger] bus_config.groups@[gg]).group_address == g
                                        && bus_config.groups@[gg].members@.contains(
                                        channel.short_address,
                                    );
                                assert(gg < gi);
                            }
                        }
                    }
                }
                gi += 1;
            }
            lights.push(
                DaliLightEmulator::new_with_config(
                    light_number,
                    channel.short_address,
                    group_mask,
                ),
            );
            proof {
                assert forall|g: u8|
                    g < 16 implies (crate::dali_manager::spec_mask_has(group_mask, g)
                    <==> bus_config.spec_member_of(g, channel.short_address)) by {
                    if bus_config.spec_member_of(g, channel.short_address) {
                        let gg = choose|gg: int|
                            0 <= gg < bus_config.groups@.len() && (
                            #[trigger] bus_config.groups@[gg]).group_address == g
                                && bus_config.groups@[gg].members@.contains(
                                channel.short_address,
                            );
                        assert(0 <= gg < group_count);
                    }
                }
            }
            light_number += 1;
        }
        DaliBusEmulator { bus_number: bus_config.bus, lights }
    }

    /// Hand one frame to every ballast and aggregate their replies.
    #[verifier::loop_isolation(false)]
    pub fn send_2_bytes(&mut self, b1: u8, b2: u8) -> (r: DaliBusResult)
        ensures
            final(self).bus_number == old(self).bus_number,
            final(self).lights@.len() == old(self).lights@.len(),
            forall|i: int|
                0 <= i < old(self).lights@.len() ==> spec_light_stepped(
                    old(self).lights@[i],
                    #[trigger] final(self).lights@[i],
                    b1,
                    b2,
                ),
            r == spec_bus_result(old(self).lights@, b1, b2),
    {
        let ghost f = |acc: DaliBusResult, l: DaliLightEmulator|
            spec_agg_reply(acc, spec_ballast_reply(l, b1, b2));
        let mut result = DaliBusResult::NoReply;
        let n = self.lights.len();
        let mut i: usize = 0;
        while i < n
            invariant
                i <= n,
                n == self.lights@.len(),
                self.lights@.len() == old(self).lights@.len(),
                self.bus_number == old(self).bus_number,
                forall|k: int| i <= k < n ==> #[trigger] self.lights@[k] == old(self).lights@[k],
                forall|k: int|
                    0 <= k < i ==> spec_light_stepped(
                        old(self).lights@[k],
                        #[trigger] self.lights@[k],
                        b1,
                        b2,
                    ),
                result == old(self).lights@.take(i as int).fold_left(DaliBusResult::NoReply, f),
            decreases n - i,
        {
            let ghost pre = self.lights@;
            let light = &mut self.lights[i];
            let reply = light.receive_2_bytes(b1, b2);
            proof {
                assert(old(self).lights@.take(i as int + 1).drop_last() =~= old(
                    self,
                ).lights@.take(i as int));
                assert(old(self).lights@.take(i as int + 1).last() == old(self).lights@[i as int]);
                assert(self.lights@ == pre.update(i as int, *final(light)));
                assert(spec_light_stepped(old(self).lights@[i as int], self.lights@[i as int], b1, b2));
                assert forall|k: int| 0 <= k < i + 1 implies spec_light_stepped(
                    old(self).lights@[k],
                    #[trigger] self.lights@[k],
                    b1,
                    b2,
                ) by {
                    if k < i {
                        assert(self.lights@[k] == pre[k]);
                    }
                }
            }
            result = match reply {
                Some(x) => match result {
                    DaliBusResult::NoReply => DaliBusResult::Value8(x),
                    DaliBusResult::Value8(_) => DaliBusResult::ReceiveCollision,
                    DaliBusResult::ReceiveCollision => DaliBusResult::ReceiveCollision,
                    _ => result,
                },
                None => result,
            };
            i += 1;
        }
        proof {
            assert(old(self).lights@.take(n as int) =~= old(self).lights@);
        }
        result
    }
}

/// The emulated transport: one emulated bus per configured bus, and
/// the log of every frame it was handed.
#[derive(Debug)]
pub struct DaliControllerEmulator {
    pub buses: Vec<DaliBusEmulator>,
    pub log: Vec<DaliFrame>,
    /// The status every bus reports; an emulated bus is healthy unless
    /// a test of the health pre-check says otherwise.
    pub bus_status: BusStatus,
}

impl DaliControllerEmulator {
    /// An emulator with `bus_count` buses of `light_count` fresh
    /// ballasts each.
    pub fn new(bus_count: usize, light_count: usize) -> (r: DaliControllerEmulator)
        ensures
            r.bus_count() == bus_count,
            r.frames() == Seq::<DaliFrame>::empty(),
            r.buses@.len() == bus_count,
            forall|b: int| 0 <= b < bus_count ==> (#[trigger] r.buses@[b]).lights@.len() == light_count,
    {
        let mut buses: Vec<DaliBusEmulator> = Vec::new();
        let mut bus_number: usize = 0;
        while bus_number < bus_count
            invariant
                bus_number <= bus_count,
                buses@.len() == bus_number,
                forall|b: int|
                    0 <= b < bus_number ==> (#[trigger] buses@[b]).lights@.len() == light_count,
            decreases bus_count - bus_number,
        {
            buses.push(DaliBusEmulator::new(bus_number, light_count));
            bus_number += 1;
        }
        DaliControllerEmulator { buses, log: Vec::new(), bus_status: BusStatus::Active }
    }

    /// An emulator restored from a persisted configuration.
    pub fn try_new(dali_config: &DaliConfig) -> (r: DaliControllerEmulator)
        ensures
            r.bus_count() == dali_config.buses@.len(),
            r.frames() == Seq::<DaliFrame>::empty(),
    {
        let mut buses: Vec<DaliBusEmulator> = Vec::new();
        let bus_count = dali_config.buses.len();
        let mut bus_number: usize = 0;
        while bus_number < bus_count
            invariant
                bus_number <= bus_count,
                bus_count == dali_config.buses@.len(),
                buses@.len() == bus_number,
            decreases bus_count - bus_number,
        {
            buses.push(DaliBusEmulator::new_with_config(&dali_config.buses[bus_number]));
            bus_number += 1;
        }
        DaliControllerEmulator { buses, log: Vec::new(), bus_status: BusStatus::Active }
    }

    /// Read access to the frame log, for tests and diagnostics.
    pub fn log_len(&self) -> (n: usize)
        ensures
            n == self.frames().len(),
    {
        self.log.len()
    }

    /// One logged frame.
    pub fn log_at(&self, k: usize) -> (f: DaliFrame)
        requires
            k < self.frames().len(),
        ensures
            f == self.frames()[k as int],
    {
        self.log[k]
    }
}

impl DaliController for DaliControllerEmulator {
    open spec fn frames(&self) -> Seq<DaliFrame> {
        self.log@
    }

    open spec fn bus_count(&self) -> nat {
        self.buses@.len()
    }

    fn send_2_bytes(&mut self, bus: usize, b1: u8, b2: u8) -> (r: Result<
        DaliBusResult,
        DaliManagerError,
    >) {
        self.log.push(DaliFrame { bus, b1, b2, twice: false });
        let bus_emulator = &mut self.buses[bus];
        Ok(bus_emulator.send_2_bytes(b1, b2))
    }

    fn send_2_bytes_repeat(&mut self, bus: usize, b1: u8, b2: u8) -> (r: Result<
        DaliBusResult,
        DaliManagerError,
    >) {
        self.log.push(DaliFrame { bus, b1, b2, twice: true });
        let bus_emulator = &mut self.buses[bus];
        Ok(bus_emulator.send_2_bytes(b1, b2))
    }

    fn get_bus_status(&mut self, _bus: usize) -> (r: Result<BusStatus, DaliManagerError>) {
        Ok(self.bus_status)
    }
}

} // verus!
