//! The command dispatcher: binds one inbound command envelope to a
//! transactional sequence against the bus, updates the configuration,
//! and decides what to publish.  Commands that mutate state are refused
//! unless the bus reports itself active; renaming a bus alone is always
//! allowed, so a dead bus can still be labelled.

use vstd::prelude::*;

use crate::command_payload::{DaliCommand, QueryLightReply};
use crate::config_payload::{BusStatus, Channel, DaliConfig, Group};
use crate::config_payload::lemma_channels_ok_push;
use crate::dali_iterator::{DaliBusIterator, DaliDeviceSelection};
use crate::dali_manager::{DaliController, DaliManager, DaliManagerError};
use crate::frames::DaliBusResult;
use crate::text;

verus! {

/// Failures of the dispatcher.
#[derive(Debug, Clone, Copy, PartialEq, Eq, Structural)]
pub enum CommandError {
    /// The bus number is not one of the configured buses.
    BusNumber(usize),
    /// The short address is out of range or names no light.
    ShortAddress(u8),
    /// The group address is out of range or names no group.
    GroupAddress(u8),
    /// The bus reports no power.
    BusHasNoPower(usize),
    /// The bus reports an overload.
    BusOverloaded(usize),
    /// The bus status is unknown.
    InvalidBusStatus(usize),
    /// All 16 group addresses are taken.
    NoMoreGroups(usize),
    /// The group does not exist on this bus.
    NoSuchGroup(usize, u8),
    /// The protocol layer failed.
    Dali(DaliManagerError),
}

/// What dispatching one command produced: the command's outcome,
/// whether the configuration must be republished and persisted, and
/// the reply envelope for query commands.
pub struct DispatchOutcome {
    pub result: Result<DaliBusResult, CommandError>,
    pub republish: bool,
    pub reply: Option<QueryLightReply>,
}

/// Whether a command mutates controller state and therefore demands an
/// active bus.  Level setting and queries skip the pre-check; renaming
/// a bus is the one mutation allowed on a bus in any state.
pub open spec fn spec_requires_active(command: DaliCommand) -> bool {
    match command {
        DaliCommand::SetLightBrightness { .. } => false,
        DaliCommand::SetGroupBrightness { .. } => false,
        DaliCommand::UpdateBusStatus => false,
        DaliCommand::RenameBus { .. } => false,
        DaliCommand::QueryLightStatus { .. } => false,
        _ => true,
    }
}

/// Whether a successful command changes the persistent model and must
/// republish the configuration snapshot.
pub open spec fn spec_republishes(command: DaliCommand) -> bool {
    match command {
        DaliCommand::SetLightBrightness { .. } => false,
        DaliCommand::SetGroupBrightness { .. } => false,
        DaliCommand::UpdateBusStatus => false,
        DaliCommand::QueryLightStatus { .. } => false,
        _ => true,
    }
}

/// Two configurations that differ at most in their cached bus
/// statuses.
pub open spec fn spec_same_except_statuses(a: DaliConfig, b: DaliConfig) -> bool {
    &&& a.name == b.name
    &&& a.buses@.len() == b.buses@.len()
    &&& forall|i: int|
        0 <= i < a.buses@.len() ==> (#[trigger] a.buses@[i]).description == b.buses@[i].description
            && a.buses@[i].bus == b.buses@[i].bus && a.buses@[i].channels == b.buses@[i].channels
            && a.buses@[i].groups == b.buses@[i].groups
}

/// The three refusals of the bus-health pre-check.
pub open spec fn spec_is_status_error(e: CommandError) -> bool {
    e is BusHasNoPower || e is BusOverloaded || e is InvalidBusStatus
}

/// Every listed member got a REMOVE FROM GROUP command in the frame
/// range appended after `fs_old_len`.
pub open spec fn spec_removals_sent(
    fs_old_len: int,
    fs: Seq<crate::frames::DaliFrame>,
    bus: usize,
    group_address: u8,
    members: Seq<u8>,
) -> bool {
    forall|j: int|
        0 <= j < members.len() ==> crate::dali_manager::spec_frame_sent(
            fs_old_len,
            fs,
            crate::dali_manager::spec_command_short_frame(
                bus,
                (crate::dali_commands::DALI_REMOVE_FROM_GROUP0 + group_address as u16) as u16,
                #[trigger] members[j],
                true,
            ),
        )
}

/// Every bus of a configuration satisfies member closure: each group
/// member names an existing channel.
pub open spec fn spec_config_closed(c: DaliConfig) -> bool {
    forall|i: int| 0 <= i < c.buses@.len() ==> (#[trigger] c.buses@[i]).members_closed()
}

/// The commands whose dispatch provably keeps member closure.
/// Removing a short address may leave a stale member behind when the
/// device's mask and the configuration disagree, and a discovery run
/// clears or extends the channel list while groups keep their members.
pub open spec fn spec_preserves_closure(command: DaliCommand) -> bool {
    match command {
        DaliCommand::RemoveShortAddress { .. } => false,
        DaliCommand::FindAllLights { .. } => false,
        DaliCommand::FindNewLights { .. } => false,
        _ => true,
    }
}

/// Under the bus invariant, a group address names at most one group:
/// every index whose group carries the address of `groups[k]` is `k`.
proof fn lemma_only_group(bus: crate::config_payload::BusConfig, k: int)
    requires
        bus.groups_wf(),
        0 <= k < bus.groups@.len(),
    ensures
        forall|m: int|
            0 <= m < bus.groups@.len() && (#[trigger] bus.groups@[m]).group_address
                == bus.groups@[k].group_address ==> m == k,
{
    assert forall|m: int|
        0 <= m < bus.groups@.len() && (#[trigger] bus.groups@[m]).group_address
            == bus.groups@[k].group_address implies m == k by {
        if m < k {
            assert(bus.groups@[m].group_address != bus.groups@[k].group_address);
        } else if m > k {
            assert(bus.groups@[k].group_address != bus.groups@[m].group_address);
        }
    }
}

/// Some channel before position `k` carries short address `b`.
pub open spec fn spec_has_addr_before(channels: Seq<Channel>, k: int, b: u8) -> bool {
    exists|m: int| 0 <= m < k && (#[trigger] channels[m]).short_address == b
}

/// The channel at position `k` was filled with the lowest short address
/// free among the channels before it, and carries that address's
/// default description.
pub open spec fn spec_channel_filled_lowest(channels: Seq<Channel>, k: int) -> bool {
    &&& channels[k].description@ == text::spec_light_description(channels[k].short_address)
    &&& channels[k].short_address < 64
    &&& !spec_has_addr_before(channels, k, channels[k].short_address)
    &&& forall|b: u8| b < channels[k].short_address ==> spec_has_addr_before(channels, k, b)
}

/// The filled-lowest property of an existing position survives
/// appending another channel.
proof fn lemma_filled_lowest_push(channels: Seq<Channel>, c: Channel, k: int)
    requires
        0 <= k < channels.len(),
        spec_channel_filled_lowest(channels, k),
    ensures
        spec_channel_filled_lowest(channels.push(c), k),
{
    let t = channels.push(c);
    assert(t[k] == channels[k]);
    assert(!spec_has_addr_before(t, k, t[k].short_address)) by {
        if spec_has_addr_before(t, k, t[k].short_address) {
            let m = choose|m: int|
                0 <= m < k && (#[trigger] t[m]).short_address == t[k].short_address;
            assert(channels[m] == t[m]);
        }
    }
    assert forall|b: u8| b < t[k].short_address implies spec_has_addr_before(t, k, b) by {
        assert(spec_has_addr_before(channels, k, b));
        let m = choose|m: int| 0 <= m < k && (#[trigger] channels[m]).short_address == b;
        assert(t[m].short_address == b);
    }
}

/// A status-only refresh keeps every bus's member closure.

proof fn lemma_statuses_only_closure(a: DaliConfig, b: DaliConfig)
    requires
        spec_same_except_statuses(a, b),
        forall|i: int| 0 <= i < a.buses@.len() ==> (#[trigger] a.buses@[i]).members_closed(),
    ensures
        forall|i: int| 0 <= i < b.buses@.len() ==> (#[trigger] b.buses@[i]).members_closed(),
{
    assert forall|i: int|
        0 <= i < b.buses@.len() implies (#[trigger] b.buses@[i]).members_closed() by {
        crate::config_payload::lemma_members_closed_shrunk(a.buses@[i], b.buses@[i]);
    }
}

/// The dispatcher: the configuration it owns and the protocol manager
/// it drives.
pub struct MqttDali<C: DaliController> {
    pub dali_config: DaliConfig,
    pub dali_manager: DaliManager<C>,
}

impl<C: DaliController> MqttDali<C> {
    /// The dispatcher invariant: a well-formed configuration whose bus
    /// list matches the transport.
    pub open spec fn wf(self) -> bool {
        &&& self.dali_config.wf()
        &&& self.dali_config.buses@.len() == self.dali_manager.bus_count()
    }

    pub fn new(dali_manager: DaliManager<C>, dali_config: DaliConfig) -> (r: MqttDali<C>)
        ensures
            r.dali_manager == dali_manager,
            r.dali_config == dali_config,
    {
        MqttDali { dali_config, dali_manager }
    }

    /// Map a cached bus status to the verdict of the pre-check: only an
    /// active bus accepts mutating commands.
    pub fn check_bus_status(bus_number: usize, status: &BusStatus) -> (r: Result<
        DaliBusResult,
        CommandError,
    >)
        ensures
            r == match status {
                BusStatus::Active => Ok::<DaliBusResult, CommandError>(DaliBusResult::NoReply),
                BusStatus::NoPower => Err::<DaliBusResult, CommandError>(
                    CommandError::BusHasNoPower(bus_number),
                ),
                BusStatus::Overloaded => Err::<DaliBusResult, CommandError>(
                    CommandError::BusOverloaded(bus_number),
                ),
                BusStatus::Unknown => Err::<DaliBusResult, CommandError>(
                    CommandError::InvalidBusStatus(bus_number),
                ),
            },
    {
        match status {
            BusStatus::Active => Ok(DaliBusResult::NoReply),
            BusStatus::NoPower => Err(CommandError::BusHasNoPower(bus_number)),
            BusStatus::Overloaded => Err(CommandError::BusOverloaded(bus_number)),
            BusStatus::Unknown => Err(CommandError::InvalidBusStatus(bus_number)),
        }
    }

    /// Refresh every bus's cached status from the transport.  Nothing
    /// but the statuses changes, and no forward frame is sent.
    #[verifier::loop_isolation(false)]
    pub fn update_bus_status(&mut self) -> (r: Result<DaliBusResult, CommandError>)
        requires
            old(self).wf(),
        ensures
            final(self).wf(),
            final(self).dali_manager.bus_count() == old(self).dali_manager.bus_count(),
            final(self).dali_manager.frames() == old(self).dali_manager.frames(),
            spec_same_except_statuses(old(self).dali_config, final(self).dali_config),
            spec_config_closed(old(self).dali_config) ==> spec_config_closed(final(self).dali_config),
            r is Ok ==> r == Ok::<DaliBusResult, CommandError>(DaliBusResult::NoReply),
    {
        let n = self.dali_config.buses.len();
        let mut bus_number: usize = 0;
        while bus_number < n
            invariant
                bus_number <= n,
                n == self.dali_config.buses@.len(),
                self.wf(),
                self.dali_manager.bus_count() == old(self).dali_manager.bus_count(),
                self.dali_manager.frames() == old(self).dali_manager.frames(),
                spec_same_except_statuses(old(self).dali_config, self.dali_config),
            decreases n - bus_number,
        {
            let status = match self.dali_manager.controller.get_bus_status(bus_number) {
                Ok(s) => s,
                Err(e) => {
                    proof {
                        if spec_config_closed(old(self).dali_config) {
                            lemma_statuses_only_closure(old(self).dali_config, self.dali_config);
                        }
                    }
                    return Err(CommandError::Dali(e));
                },
            };
            let ghost pre = self.dali_config.buses@;
            let bus = &mut self.dali_config.buses[bus_number];
            bus.status = status;
            proof {
                assert(self.dali_config.buses@ == pre.update(bus_number as int, *final(bus)));
            }
            bus_number += 1;
        }
        proof {
            if spec_config_closed(old(self).dali_config) {
                lemma_statuses_only_closure(old(self).dali_config, self.dali_config);
            }
        }
        Ok(DaliBusResult::NoReply)
    }

    /// Refresh all statuses, then judge the named bus: it must exist
    /// and be active.
    pub fn check_bus(&mut self, bus_number: usize) -> (r: Result<DaliBusResult, CommandError>)
        requires
            old(self).wf(),
        ensures
            final(self).wf(),
            final(self).dali_manager.bus_count() == old(self).dali_manager.bus_count(),
            final(self).dali_manager.frames() == old(self).dali_manager.frames(),
            spec_same_except_statuses(old(self).dali_config, final(self).dali_config),
            spec_config_closed(old(self).dali_config) ==> spec_config_closed(final(self).dali_config),
            r is Ok ==> bus_number < final(self).dali_config.buses@.len() && final(self).dali_config.buses@[bus_number as int].status is Active,
            bus_number >= old(self).dali_config.buses@.len() ==> r is Err,
    {
        if let Err(e) = self.update_bus_status() {
            return Err(e);
        }
        if bus_number >= self.dali_config.buses.len() {
            return Err(CommandError::BusNumber(bus_number));
        }
        let status = self.dali_config.buses[bus_number].status;
        Self::check_bus_status(bus_number, &status)
    }

    /// Rename a bus.  Allowed whatever the bus's status.
    pub fn rename_bus(&mut self, bus_number: usize, name: &str) -> (r: Result<
        DaliBusResult,
        CommandError,
    >)
        requires
            old(self).wf(),
        ensures
            final(self).wf(),
            final(self).dali_manager == old(self).dali_manager,
            spec_config_closed(old(self).dali_config) ==> spec_config_closed(final(self).dali_config),
            bus_number >= old(self).dali_config.buses@.len() ==> r == Err::<
                DaliBusResult,
                CommandError,
            >(CommandError::BusNumber(bus_number)) && final(self).dali_config == old(self).dali_config,
            bus_number < old(self).dali_config.buses@.len() ==> r == Ok::<
                DaliBusResult,
                CommandError,
            >(DaliBusResult::NoReply) && final(self).dali_config.buses@[bus_number as int].description@
                == name@ && final(self).dali_config.name == old(self).dali_config.name && final(self).dali_config.buses@.len() == old(self).dali_config.buses@.len() && forall|i: int|
                0 <= i < old(self).dali_config.buses@.len() && i != bus_number
                    ==> #[trigger] final(self).dali_config.buses@[i] == old(self).dali_config.buses@[i] && final(self).dali_config.buses@[bus_number as int]
                    .status == old(self).dali_config.buses@[bus_number as int].status && final(self).dali_config.buses@[bus_number as int].bus == old(self).dali_config.buses@[bus_number as int].bus && final(self).dali_config.buses@[bus_number as int].channels == old(self).dali_config.buses@[bus_number as int].channels && final(self).dali_config.buses@[bus_number as int].groups == old(self).dali_config.buses@[bus_number as int].groups,
    {
        if bus_number >= self.dali_config.buses.len() {
            return Err(CommandError::BusNumber(bus_number));
        }
        let ghost pre = self.dali_config.buses@;
        let bus = &mut self.dali_config.buses[bus_number];
        bus.description = String::from_str(name);
        proof {
            assert(self.dali_config.buses@ == pre.update(bus_number as int, *final(bus)));
            if spec_config_closed(old(self).dali_config) {
                crate::config_payload::lemma_members_closed_shrunk(
                    old(self).dali_config.buses@[bus_number as int],
                    *final(bus),
                );
                assert forall|ii: int|
                    0 <= ii < self.dali_config.buses@.len() implies (
                #[trigger] self.dali_config.buses@[ii]).members_closed() by {
                    if ii != bus_number as int {
                        assert(self.dali_config.buses@[ii] == old(self).dali_config.buses@[ii]);
                    }
                }
            }
        }
        Ok(DaliBusResult::NoReply)
    }

    /// Rename one light, named by its short address.
    pub fn rename_light(&mut self, bus_number: usize, short_address: u8, name: &str) -> (r: Result<
        DaliBusResult,
        CommandError,
    >)
        requires
            old(self).wf(),
        ensures
            final(self).wf(),
            final(self).dali_manager == old(self).dali_manager,
            spec_config_closed(old(self).dali_config) ==> spec_config_closed(final(self).dali_config),
            r is Err ==> final(self).dali_config == old(self).dali_config,
            bus_number >= old(self).dali_config.buses@.len() ==> r == Err::<
                DaliBusResult,
                CommandError,
            >(CommandError::BusNumber(bus_number)),
            bus_number < old(self).dali_config.buses@.len() && !old(self).dali_config.buses@[bus_number as int].spec_has_channel(short_address) ==> r == Err::<
                DaliBusResult,
                CommandError,
            >(CommandError::ShortAddress(short_address)),
            bus_number < old(self).dali_config.buses@.len() && old(self).dali_config.buses@[bus_number as int].spec_has_channel(short_address) ==> r == Ok::<
                DaliBusResult,
                CommandError,
            >(DaliBusResult::NoReply),
            r is Ok ==> bus_number < old(self).dali_config.buses@.len() && exists|k: int|
                0 <= k < old(self).dali_config.buses@[bus_number as int].channels@.len() && (
                #[trigger] old(self).dali_config.buses@[bus_number as int].channels@[k]).short_address
                    == short_address && final(self).dali_config.buses@[bus_number as int].channels@[k].description@
                    == name@ && final(self).dali_config.buses@[bus_number as int].channels@[k].short_address
                    == short_address && forall|j: int|
                    0 <= j < old(self).dali_config.buses@[bus_number as int].channels@.len() && j
                        != k ==> #[trigger] final(self).dali_config.buses@[bus_number as int].channels@[j] == old(self).dali_config.buses@[bus_number as int].channels@[j],
            r is Ok ==> final(self).dali_config.name == old(self).dali_config.name && final(self).dali_config.buses@.len() == old(self).dali_config.buses@.len() && forall|i: int|
                0 <= i < old(self).dali_config.buses@.len() && i != bus_number
                    ==> #[trigger] final(self).dali_config.buses@[i] == old(self).dali_config.buses@[i],
            r is Ok ==> final(self).dali_config.buses@[bus_number as int].same_except_channels(
                old(self).dali_config.buses@[bus_number as int],
            ) && final(self).dali_config.buses@[bus_number as int].channels@.len() == old(self).dali_config.buses@[bus_number as int].channels@.len(),
    {
        if bus_number >= self.dali_config.buses.len() {
            return Err(CommandError::BusNumber(bus_number));
        }
        let index = match self.dali_config.buses[bus_number].get_channel_index(short_address) {
            Some(i) => i,
            None => {
                return Err(CommandError::ShortAddress(short_address));
            },
        };
        let ghost pre = self.dali_config.buses@;
        let bus = &mut self.dali_config.buses[bus_number];
        let ghost pre_channels = bus.channels@;
        let channel = &mut bus.channels[index];
        channel.description = String::from_str(name);
        proof {
            assert(bus.channels@ == pre_channels.update(index as int, *final(channel)));
            assert(self.dali_config.buses@ == pre.update(bus_number as int, *final(bus)));
            if spec_config_closed(old(self).dali_config) {
                crate::config_payload::lemma_members_closed_shrunk(
                    old(self).dali_config.buses@[bus_number as int],
                    *final(bus),
                );
                assert forall|ii: int|
                    0 <= ii < self.dali_config.buses@.len() implies (
                #[trigger] self.dali_config.buses@[ii]).members_closed() by {
                    if ii != bus_number as int {
                        assert(self.dali_config.buses@[ii] == old(self).dali_config.buses@[ii]);
                    }
                }
            }
        }
        Ok(DaliBusResult::NoReply)
    }

    /// Rename one group, named by its group address.
    pub fn rename_group(&mut self, bus_number: usize, group_address: u8, name: &str) -> (r: Result<
        DaliBusResult,
        CommandError,
    >)
        requires
            old(self).wf(),
        ensures
            final(self).wf(),
            final(self).dali_manager == old(self).dali_manager,
            spec_config_closed(old(self).dali_config) ==> spec_config_closed(final(self).dali_config),
            r is Err ==> final(self).dali_config == old(self).dali_config,
            bus_number >= old(self).dali_config.buses@.len() ==> r == Err::<
                DaliBusResult,
                CommandError,
            >(CommandError::BusNumber(bus_number)),
            bus_number < old(self).dali_config.buses@.len() && !old(self).dali_config.buses@[bus_number as int].spec_has_group(group_address) ==> r == Err::<
                DaliBusResult,
                CommandError,
            >(CommandError::GroupAddress(group_address)),
            bus_number < old(self).dali_config.buses@.len() && old(self).dali_config.buses@[bus_number as int].spec_has_group(group_address) ==> r == Ok::<
                DaliBusResult,
                CommandError,
            >(DaliBusResult::NoReply),
            r is Ok ==> bus_number < old(self).dali_config.buses@.len() && exists|k: int|
                0 <= k < old(self).dali_config.buses@[bus_number as int].groups@.len() && (
                #[trigger] old(self).dali_config.buses@[bus_number as int].groups@[k]).group_address
                    == group_address && final(self).dali_config.buses@[bus_number as int].groups@[k].description@
                    == name@ && final(self).dali_config.buses@[bus_number as int].groups@[k].group_address
                    == group_address && final(self).dali_config.buses@[bus_number as int].groups@[k].members
                    == old(self).dali_config.buses@[bus_number as int].groups@[k].members && forall|
                    j: int,
                |
                    0 <= j < old(self).dali_config.buses@[bus_number as int].groups@.len() && j
                        != k ==> #[trigger] final(self).dali_config.buses@[bus_number as int].groups@[j] == old(self).dali_config.buses@[bus_number as int].groups@[j],
            r is Ok ==> final(self).dali_config.name == old(self).dali_config.name && final(self).dali_config.buses@.len() == old(self).dali_config.buses@.len() && forall|i: int|
                0 <= i < old(self).dali_config.buses@.len() && i != bus_number
                    ==> #[trigger] final(self).dali_config.buses@[i] == old(self).dali_config.buses@[i],
            r is Ok ==> final(self).dali_config.buses@[bus_number as int].same_except_groups(
                old(self).dali_config.buses@[bus_number as int],
            ) && final(self).dali_config.buses@[bus_number as int].groups@.len() == old(self).dali_config.buses@[bus_number as int].groups@.len(),
    {
        if bus_number >= self.dali_config.buses.len() {
            return Err(CommandError::BusNumber(bus_number));
        }
        let index = match self.dali_config.buses[bus_number].get_group_index(group_address) {
            Some(i) => i,
            None => {
                return Err(CommandError::GroupAddress(group_address));
            },
        };
        let ghost pre = self.dali_config.buses@;
        let bus = &mut self.dali_config.buses[bus_number];
        let ghost pre_groups = bus.groups@;
        let group = &mut bus.groups[index];
        group.description = String::from_str(name);
        proof {
            assert(bus.groups@ == pre_groups.update(index as int, *final(group)));
            assert(self.dali_config.buses@ == pre.update(bus_number as int, *final(bus)));
            if spec_config_closed(old(self).dali_config) {
                crate::config_payload::lemma_members_closed_shrunk(
                    old(self).dali_config.buses@[bus_number as int],
                    *final(bus),
                );
                assert forall|ii: int|
                    0 <= ii < self.dali_config.buses@.len() implies (
                #[trigger] self.dali_config.buses@[ii]).members_closed() by {
                    if ii != bus_number as int {
                        assert(self.dali_config.buses@[ii] == old(self).dali_config.buses@[ii]);
                    }
                }
            }
        }
        Ok(DaliBusResult::NoReply)
    }

    /// Create the group with the lowest unused address on a bus.
    #[verifier::loop_isolation(false)]
    pub fn new_group(&mut self, bus_number: usize) -> (r: Result<DaliBusResult, CommandError>)
        requires
            old(self).wf(),
        ensures
            final(self).wf(),
            final(self).dali_manager == old(self).dali_manager,
            spec_config_closed(old(self).dali_config) ==> spec_config_closed(final(self).dali_config),
            r is Err ==> final(self).dali_config == old(self).dali_config,
            bus_number >= old(self).dali_config.buses@.len() ==> r == Err::<
                DaliBusResult,
                CommandError,
            >(CommandError::BusNumber(bus_number)),
            bus_number < old(self).dali_config.buses@.len() && (forall|g: u8|
                g < 16 ==> old(self).dali_config.buses@[bus_number as int].spec_has_group(g))
                ==> r == Err::<DaliBusResult, CommandError>(CommandError::NoMoreGroups(bus_number)),
            bus_number < old(self).dali_config.buses@.len() && (exists|g: u8|
                g < 16 && !old(self).dali_config.buses@[bus_number as int].spec_has_group(g))
                ==> r == Ok::<DaliBusResult, CommandError>(DaliBusResult::NoReply),
            r is Ok ==> bus_number < old(self).dali_config.buses@.len() && exists|g: u8|
                {
                    &&& g < 16
                    &&& !old(self).dali_config.buses@[bus_number as int].spec_has_group(g)
                    &&& forall|h: u8|
                        h < g ==> old(self).dali_config.buses@[bus_number as int].spec_has_group(
                            h,
                        )
                    &&& final(self).dali_config.buses@[bus_number as int].groups@ == old(self).dali_config.buses@[bus_number as int].groups@.push(
                        (#[trigger] final(self).dali_config.buses@[bus_number as int].groups@.last()),
                    )
                    &&& final(self).dali_config.buses@[bus_number as int].groups@.last().group_address
                        == g
                    &&& final(self).dali_config.buses@[bus_number as int].groups@.last().description@
                        == text::spec_group_description(g)
                    &&& final(self).dali_config.buses@[bus_number as int].groups@.last().members@.len()
                        == 0
                },
            r is Ok ==> final(self).dali_config.name == old(self).dali_config.name && final(self).dali_config.buses@.len() == old(self).dali_config.buses@.len() && forall|i: int|
                0 <= i < old(self).dali_config.buses@.len() && i != bus_number
                    ==> #[trigger] final(self).dali_config.buses@[i] == old(self).dali_config.buses@[i],
            r is Ok ==> final(self).dali_config.buses@[bus_number as int].same_except_groups(
                old(self).dali_config.buses@[bus_number as int],
            ),
    {
        if bus_number >= self.dali_config.buses.len() {
            return Err(CommandError::BusNumber(bus_number));
        }
        let mut group_address: u8 = 0;
        while group_address < 16
            invariant
                group_address <= 16,
                forall|h: u8|
                    h < group_address ==> old(self).dali_config.buses@[bus_number as int].spec_has_group(h),
                *self == *old(self),
                bus_number < self.dali_config.buses@.len(),
            decreases 16 - group_address,
        {
            if self.dali_config.buses[bus_number].get_group_index(group_address).is_none() {
                let ghost pre = self.dali_config.buses@;
                let bus = &mut self.dali_config.buses[bus_number];
                let ghost pre_groups = bus.groups@;
                bus.groups.push(
                    Group {
                        description: text::group_description(group_address),
                        group_address,
                        members: Vec::new(),
                    },
                );
                proof {
                    assert(self.dali_config.buses@ == pre.update(bus_number as int, *final(bus)));
                    assert(final(bus).groups@ == pre_groups.push(final(bus).groups@.last()));
                    if spec_config_closed(old(self).dali_config) {
                        assert(final(bus).groups@.last().members@.len() == 0);
                        crate::config_payload::lemma_members_closed_shrunk(
                            old(self).dali_config.buses@[bus_number as int],
                            *final(bus),
                        );
                        assert forall|ii: int|
                            0 <= ii < self.dali_config.buses@.len() implies (
                        #[trigger] self.dali_config.buses@[ii]).members_closed() by {
                            if ii != bus_number as int {
                                assert(self.dali_config.buses@[ii] == old(self).dali_config.buses@[ii]);
                            }
                        }
                    }
                }
                return Ok(DaliBusResult::NoReply);
            }
            group_address += 1;
        }
        Err(CommandError::NoMoreGroups(bus_number))
    }

    /// Remove a group: first take every member off the group on the
    /// device, then drop the group from the configuration.
    #[verifier::loop_isolation(false)]
    pub fn remove_group(&mut self, bus_number: usize, group_address: u8) -> (r: Result<
        DaliBusResult,
        CommandError,
    >)
        requires
            old(self).wf(),
        ensures
            final(self).wf(),
            final(self).dali_manager.bus_count() == old(self).dali_manager.bus_count(),
            r matches Err(e) ==> !spec_is_status_error(e),
            spec_config_closed(old(self).dali_config) ==> spec_config_closed(final(self).dali_config),
            r is Err ==> final(self).dali_config == old(self).dali_config,
            bus_number >= old(self).dali_config.buses@.len() ==> r == Err::<
                DaliBusResult,
                CommandError,
            >(CommandError::BusNumber(bus_number)),
            bus_number < old(self).dali_config.buses@.len() && !old(self).dali_config.buses@[bus_number as int].spec_has_group(group_address) ==> r == Err::<
                DaliBusResult,
                CommandError,
            >(CommandError::NoSuchGroup(bus_number, group_address)),
            r is Ok ==> bus_number < old(self).dali_config.buses@.len() && exists|k: int|
                0 <= k < old(self).dali_config.buses@[bus_number as int].groups@.len() && (
                #[trigger] old(self).dali_config.buses@[bus_number as int].groups@[k]).group_address
                    == group_address && final(self).dali_config.buses@[bus_number as int].groups@
                    == old(self).dali_config.buses@[bus_number as int].groups@.remove(k),
            r is Ok ==> !final(self).dali_config.buses@[bus_number as int].spec_has_group(
                group_address,
            ),
            r is Ok ==> final(self).dali_config.name == old(self).dali_config.name && final(self).dali_config.buses@.len() == old(self).dali_config.buses@.len() && (forall|i: int|
                0 <= i < old(self).dali_config.buses@.len() && i != bus_number
                    ==> #[trigger] final(self).dali_config.buses@[i] == old(self).dali_config.buses@[i]) && final(self).dali_config.buses@[bus_number as int].same_except_groups(
                old(self).dali_config.buses@[bus_number as int],
            ),
            forall|k: int|
                bus_number < old(self).dali_config.buses@.len() && 0 <= k < old(self).dali_config.buses@[bus_number as int].groups@.len() && (
                #[trigger] old(self).dali_config.buses@[bus_number as int].groups@[k]).group_address
                    == group_address && old(self).dali_config.buses@[bus_number as int].groups@[k].members@.len()
                    == 0 ==> r == Ok::<DaliBusResult, CommandError>(DaliBusResult::NoReply),
            r is Ok ==> forall|k: int|
                0 <= k < old(self).dali_config.buses@[bus_number as int].groups@.len() && (
                #[trigger] old(self).dali_config.buses@[bus_number as int].groups@[k]).group_address
                    == group_address ==> spec_removals_sent(
                    old(self).dali_manager.frames().len() as int,
                    final(self).dali_manager.frames(),
                    bus_number,
                    group_address,
                    old(self).dali_config.buses@[bus_number as int].groups@[k].members@,
                ),
    {
        if bus_number >= self.dali_config.buses.len() {
            return Err(CommandError::BusNumber(bus_number));
        }
        let group_index = match self.dali_config.buses[bus_number].get_group_index(
            group_address,
        ) {
            Some(i) => i,
            None => {
                return Err(CommandError::NoSuchGroup(bus_number, group_address));
            },
        };
        proof {
            lemma_only_group(old(self).dali_config.buses@[bus_number as int], group_index as int);
        }
        let member_count = self.dali_config.buses[bus_number].groups[group_index].members.len();
        let mut j: usize = 0;
        while j < member_count
            invariant
                j <= member_count,
                self.dali_config == old(self).dali_config,
                self.dali_manager.bus_count() == old(self).dali_manager.bus_count(),
                bus_number < self.dali_config.buses@.len(),
                group_index < self.dali_config.buses@[bus_number as int].groups@.len(),
                self.dali_config.buses@[bus_number as int].groups@[group_index as int].group_address
                    == group_address,
                member_count == self.dali_config.buses@[bus_number as int].groups@[group_index as int].members@.len(),
                old(self).dali_manager.frames().len() <= self.dali_manager.frames().len(),
                self.dali_manager.frames().subrange(
                    0,
                    old(self).dali_manager.frames().len() as int,
                ) == old(self).dali_manager.frames(),
                forall|jj: int|
                    0 <= jj < j ==> crate::dali_manager::spec_frame_sent(
                        old(self).dali_manager.frames().len() as int,
                        self.dali_manager.frames(),
                        crate::dali_manager::spec_command_short_frame(
                            bus_number,
                            (crate::dali_commands::DALI_REMOVE_FROM_GROUP0
                                + group_address as u16) as u16,
                            #[trigger] old(self).dali_config.buses@[bus_number as int].groups@[group_index as int].members@[jj],
                            true,
                        ),
                    ),
            decreases member_count - j,
        {
            let member = self.dali_config.buses[bus_number].groups[group_index].members[j];
            let ghost p0 = self.dali_manager.frames();
            let sent = self.dali_manager.remove_from_group(bus_number, group_address, member);
            if let Err(e) = sent {
                return Err(CommandError::Dali(e));
            }
            proof {
                assert(group_address < 16);
                assert(member < 64);
                let lo = old(self).dali_manager.frames().len() as int;
                let rm_of = |a: u8| crate::dali_manager::spec_command_short_frame(
                    bus_number,
                    (crate::dali_commands::DALI_REMOVE_FROM_GROUP0 + group_address as u16) as u16,
                    a,
                    true,
                );
                assert(self.dali_manager.frames() == p0.push(rm_of(member)));
                assert(self.dali_manager.frames().subrange(0, lo) =~= old(self).dali_manager.frames());
                assert(self.dali_manager.frames().subrange(0, p0.len() as int) =~= p0);
                assert forall|jj: int| 0 <= jj < j + 1 implies crate::dali_manager::spec_frame_sent(
                    lo,
                    self.dali_manager.frames(),
                    crate::dali_manager::spec_command_short_frame(
                        bus_number,
                        (crate::dali_commands::DALI_REMOVE_FROM_GROUP0
                            + group_address as u16) as u16,
                        #[trigger] old(self).dali_config.buses@[bus_number as int].groups@[group_index as int].members@[jj],
                        true,
                    ),
                ) by {
                    if jj < j {
                        crate::dali_manager::lemma_frame_sent_extend(
                            lo,
                            p0,
                            self.dali_manager.frames(),
                            rm_of(
                                old(self).dali_config.buses@[bus_number as int].groups@[group_index as int].members@[jj],
                            ),
                        );
                    } else {
                        assert(self.dali_manager.frames()[p0.len() as int] == rm_of(member));
                    }
                }
            }
            j += 1;
        }
        let ghost sent_frames = self.dali_manager.frames();
        proof {
            assert(spec_removals_sent(
                old(self).dali_manager.frames().len() as int,
                sent_frames,
                bus_number,
                group_address,
                old(self).dali_config.buses@[bus_number as int].groups@[group_index as int].members@,
            ));
        }
        let ghost pre = self.dali_config.buses@;
        let bus = &mut self.dali_config.buses[bus_number];
        let ghost pre_groups = bus.groups@;
        bus.groups.remove(group_index);
        proof {
            assert(self.dali_config.buses@ == pre.update(bus_number as int, *final(bus)));
            crate::config_payload::lemma_groups_ok_remove(pre_groups, group_index as int);
            if spec_config_closed(old(self).dali_config) {
                crate::config_payload::lemma_members_closed_group_removed(
                    old(self).dali_config.buses@[bus_number as int],
                    *final(bus),
                    group_index as int,
                );
                assert forall|ii: int|
                    0 <= ii < self.dali_config.buses@.len() implies (
                #[trigger] self.dali_config.buses@[ii]).members_closed() by {
                    if ii != bus_number as int {
                        assert(self.dali_config.buses@[ii] == old(self).dali_config.buses@[ii]);
                    }
                }
            }
            assert(!final(bus).spec_has_group(group_address)) by {
                if final(bus).spec_has_group(group_address) {
                    let m = choose|m: int|
                        0 <= m < final(bus).groups@.len() && (
                        #[trigger] final(bus).groups@[m]).group_address == group_address;
                    let m0 = if m < group_index {
                        m
                    } else {
                        m + 1
                    };
                    assert(final(bus).groups@[m] == pre_groups[m0]);
                    if m0 < group_index {
                        assert(pre_groups[m0].group_address != group_address);
                    } else {
                        assert(pre_groups[group_index as int].group_address != pre_groups[m0].group_address);
                    }
                }
            }
        }
        proof {
            assert(self.dali_manager.frames() == sent_frames);
            assert forall|k: int|
                0 <= k < old(self).dali_config.buses@[bus_number as int].groups@.len() && (
                #[trigger] old(self).dali_config.buses@[bus_number as int].groups@[k]).group_address
                    == group_address implies spec_removals_sent(
                old(self).dali_manager.frames().len() as int,
                self.dali_manager.frames(),
                bus_number,
                group_address,
                old(self).dali_config.buses@[bus_number as int].groups@[k].members@,
            ) by {
                assert(k == group_index as int);
            }
        }
        Ok(DaliBusResult::NoReply)
    }

    /// Add a light to a group, creating the group when absent, with
    /// on-device verification.  Adding an existing member changes
    /// nothing: one light is listed at most once.
    pub fn add_to_group(&mut self, bus_number: usize, group_address: u8, short_address: u8) -> (r:
        Result<DaliBusResult, CommandError>)
        requires
            old(self).wf(),
        ensures
            final(self).wf(),
            final(self).dali_manager.bus_count() == old(self).dali_manager.bus_count(),
            r matches Err(e) ==> !spec_is_status_error(e),
            bus_number >= old(self).dali_config.buses@.len() ==> r == Err::<
                DaliBusResult,
                CommandError,
            >(CommandError::BusNumber(bus_number)) && *final(self) == *old(self),
            bus_number < old(self).dali_config.buses@.len() && group_address >= 16 ==> r == Err::<
                DaliBusResult,
                CommandError,
            >(CommandError::GroupAddress(group_address)) && *final(self) == *old(self),
            bus_number < old(self).dali_config.buses@.len() && group_address < 16 && !old(self).dali_config.buses@[bus_number as int].spec_has_channel(short_address) ==> r == Err::<
                DaliBusResult,
                CommandError,
            >(CommandError::ShortAddress(short_address)) && *final(self) == *old(self),
            spec_config_closed(old(self).dali_config) ==> spec_config_closed(final(self).dali_config),
            final(self).dali_config.name == old(self).dali_config.name,
            final(self).dali_config.buses@.len() == old(self).dali_config.buses@.len(),
            forall|i: int|
                0 <= i < old(self).dali_config.buses@.len() && i != bus_number
                    ==> #[trigger] final(self).dali_config.buses@[i] == old(self).dali_config.buses@[i],
            bus_number < old(self).dali_config.buses@.len() ==> final(self).dali_config.buses@[bus_number as int].same_except_groups(
                old(self).dali_config.buses@[bus_number as int],
            ),
            r is Ok ==> exists|k: int|
                {
                    &&& 0 <= k < final(self).dali_config.buses@[bus_number as int].groups@.len()
                    &&& (#[trigger] final(self).dali_config.buses@[bus_number as int].groups@[k]).group_address
                        == group_address
                    &&& final(self).dali_config.buses@[bus_number as int].groups@[k].members@.contains(
                        short_address,
                    )
                    &&& (old(self).dali_config.buses@[bus_number as int].spec_has_group(
                        group_address,
                    ) && old(self).dali_config.buses@[bus_number as int].spec_member_of(
                        group_address,
                        short_address,
                    ) ==> final(self).dali_config.buses@[bus_number as int].groups == old(self).dali_config.buses@[bus_number as int].groups)
                },
    {
        if bus_number >= self.dali_config.buses.len() {
            return Err(CommandError::BusNumber(bus_number));
        }
        if group_address >= 16 {
            return Err(CommandError::GroupAddress(group_address));
        }
        if self.dali_config.buses[bus_number].get_channel_index(short_address).is_none() {
            return Err(CommandError::ShortAddress(short_address));
        }
        proof {
            assert(short_address < 64);
        }
        let group_index = match self.dali_config.buses[bus_number].get_group_index(
            group_address,
        ) {
            Some(i) => i,
            None => {
                let ghost pre = self.dali_config.buses@;
                let bus = &mut self.dali_config.buses[bus_number];
                let index = bus.groups.len();
                let ghost pre_groups = bus.groups@;
                bus.groups.push(
                    Group {
                        description: text::group_description(group_address),
                        group_address,
                        members: Vec::new(),
                    },
                );
                proof {
                    assert(self.dali_config.buses@ == pre.update(bus_number as int, *final(bus)));
                    assert(final(bus).groups@ == pre_groups.push(final(bus).groups@.last()));
                    if spec_config_closed(old(self).dali_config) {
                        assert(old(self).dali_config.buses@[bus_number as int].members_closed());
                        assert forall|gk: int, mj: int|
                            0 <= gk < final(bus).groups@.len() && 0 <= mj < final(bus).groups@[gk].members@.len() implies final(bus).spec_has_channel(
                            #[trigger] final(bus).groups@[gk].members@[mj],
                        ) by {
                            if gk < pre_groups.len() {
                                assert(final(bus).groups@[gk] == pre_groups[gk]);
                                let v = final(bus).groups@[gk].members@[mj];
                                assert(old(self).dali_config.buses@[bus_number as int].spec_has_channel(
                                    v,
                                ));
                                let w = choose|w: int|
                                    0 <= w < old(self).dali_config.buses@[bus_number as int].channels@.len()
                                        && (#[trigger] old(self).dali_config.buses@[bus_number as int].channels@[w]).short_address
                                        == v;
                                assert(final(bus).channels@[w].short_address == v);
                            } else {
                                assert(final(bus).groups@[gk].members@.len() == 0);
                            }
                        }
                        assert(final(bus).members_closed());
                        assert forall|ii: int|
                            0 <= ii < self.dali_config.buses@.len() implies (
                        #[trigger] self.dali_config.buses@[ii]).members_closed() by {
                            if ii != bus_number as int {
                                assert(self.dali_config.buses@[ii] == old(self).dali_config.buses@[ii]);
                            }
                        }
                        assert(spec_config_closed(self.dali_config));
                    }
                }
                index
            },
        };
        let ghost created = *self;
        proof {
            assert(spec_config_closed(old(self).dali_config) ==> spec_config_closed(
                created.dali_config,
            ));
        }
        if let Err(e) = self.dali_manager.add_to_group_and_verify(
            bus_number,
            group_address,
            short_address,
        ) {
            return Err(CommandError::Dali(e));
        }
        let is_member = crate::config_payload::vec_contains(
            &self.dali_config.buses[bus_number].groups[group_index].members,
            short_address,
        );
        if !is_member {
            let ghost pre = self.dali_config.buses@;
            let bus = &mut self.dali_config.buses[bus_number];
            let ghost pre_groups = bus.groups@;
            let group = &mut bus.groups[group_index];
            group.members.push(short_address);
            proof {
                assert(bus.groups@ == pre_groups.update(group_index as int, *final(group)));
                assert(self.dali_config.buses@ == pre.update(bus_number as int, *final(bus)));
                crate::config_payload::lemma_unique_push(
                    pre_groups[group_index as int].members@,
                    short_address,
                );
                crate::config_payload::lemma_push_contains(
                    pre_groups[group_index as int].members@,
                    short_address,
                    short_address,
                );
                if spec_config_closed(created.dali_config) {
                    assert(created.dali_config.buses@[bus_number as int].members_closed());
                    assert forall|gk: int, mj: int|
                        0 <= gk < final(bus).groups@.len() && 0 <= mj < final(bus).groups@[gk].members@.len() implies final(bus).spec_has_channel(
                        #[trigger] final(bus).groups@[gk].members@[mj],
                    ) by {
                        let v = final(bus).groups@[gk].members@[mj];
                        if gk == group_index as int {
                            crate::config_payload::lemma_push_contains(
                                pre_groups[group_index as int].members@,
                                short_address,
                                v,
                            );
                            assert(final(bus).groups@[gk].members@.contains(v));
                            if v != short_address {
                                assert(pre_groups[group_index as int].members@.contains(v));
                                let wj = choose|wj: int|
                                    0 <= wj < pre_groups[group_index as int].members@.len()
                                        && pre_groups[group_index as int].members@[wj] == v;
                                assert(created.dali_config.buses@[bus_number as int].groups@[group_index as int].members@[wj]
                                    == v);
                                assert(created.dali_config.buses@[bus_number as int].spec_has_channel(
                                    v,
                                ));
                            } else {
                                assert(created.dali_config.buses@[bus_number as int].spec_has_channel(
                                    v,
                                ));
                            }
                        } else {
                            assert(final(bus).groups@[gk] == pre_groups[gk]);
                            assert(created.dali_config.buses@[bus_number as int].groups@[gk].members@[mj]
                                == v);
                            assert(created.dali_config.buses@[bus_number as int].spec_has_channel(
                                v,
                            ));
                        }
                        let w = choose|w: int|
                            0 <= w < created.dali_config.buses@[bus_number as int].channels@.len()
                                && (#[trigger] created.dali_config.buses@[bus_number as int].channels@[w]).short_address
                                == v;
                        assert(final(bus).channels@[w].short_address == v);
                    }
                    assert(final(bus).members_closed());
                    assert forall|ii: int|
                        0 <= ii < self.dali_config.buses@.len() implies (
                    #[trigger] self.dali_config.buses@[ii]).members_closed() by {
                        if ii != bus_number as int {
                            assert(self.dali_config.buses@[ii] == created.dali_config.buses@[ii]);
                        }
                    }
                    assert(spec_config_closed(self.dali_config));
                }
            }
        } else {
            proof {
                assert(self.dali_config.buses@[bus_number as int].spec_member_of(
                    group_address,
                    short_address,
                ));
            }
        }
        Ok(DaliBusResult::NoReply)
    }

    /// Remove a light from a group, with on-device verification; a
    /// light that is no member is left alone.
    pub fn remove_from_group(
        &mut self,
        bus_number: usize,
        group_address: u8,
        short_address: u8,
    ) -> (r: Result<DaliBusResult, CommandError>)
        requires
            old(self).wf(),
        ensures
            final(self).wf(),
            final(self).dali_manager.bus_count() == old(self).dali_manager.bus_count(),
            r matches Err(e) ==> !spec_is_status_error(e),
            spec_config_closed(old(self).dali_config) ==> spec_config_closed(final(self).dali_config),
            r is Err ==> final(self).dali_config == old(self).dali_config,
            bus_number >= old(self).dali_config.buses@.len() ==> r == Err::<
                DaliBusResult,
                CommandError,
            >(CommandError::BusNumber(bus_number)),
            bus_number < old(self).dali_config.buses@.len() && !old(self).dali_config.buses@[bus_number as int].spec_has_group(group_address) ==> r == Err::<
                DaliBusResult,
                CommandError,
            >(CommandError::NoSuchGroup(bus_number, group_address)),
            r is Ok ==> !final(self).dali_config.buses@[bus_number as int].spec_member_of(
                group_address,
                short_address,
            ),
            bus_number < old(self).dali_config.buses@.len() && old(self).dali_config.buses@[bus_number as int].spec_has_group(group_address) && !old(self).dali_config.buses@[bus_number as int].spec_member_of(
                group_address,
                short_address,
            ) ==> r == Ok::<DaliBusResult, CommandError>(DaliBusResult::NoReply) && *final(self)
                == *old(self),
            r is Ok ==> final(self).dali_config.name == old(self).dali_config.name && final(self).dali_config.buses@.len() == old(self).dali_config.buses@.len() && (forall|i: int|
                0 <= i < old(self).dali_config.buses@.len() && i != bus_number
                    ==> #[trigger] final(self).dali_config.buses@[i] == old(self).dali_config.buses@[i]) && final(self).dali_config.buses@[bus_number as int].same_except_groups(
                old(self).dali_config.buses@[bus_number as int],
            ),
    {
        if bus_number >= self.dali_config.buses.len() {
            return Err(CommandError::BusNumber(bus_number));
        }
        let group_index = match self.dali_config.buses[bus_number].get_group_index(
            group_address,
        ) {
            Some(i) => i,
            None => {
                return Err(CommandError::NoSuchGroup(bus_number, group_address));
            },
        };
        proof {
            lemma_only_group(old(self).dali_config.buses@[bus_number as int], group_index as int);
        }
        let is_member = crate::config_payload::vec_contains(
            &self.dali_config.buses[bus_number].groups[group_index].members,
            short_address,
        );
        if !is_member {
            proof {
                assert(!old(self).dali_config.buses@[bus_number as int].spec_member_of(
                    group_address,
                    short_address,
                )) by {
                    let gidx = group_index as int;
                    if old(self).dali_config.buses@[bus_number as int].spec_member_of(
                        group_address,
                        short_address,
                    ) {
                        let m = choose|m: int|
                            0 <= m < old(self).dali_config.buses@[bus_number as int].groups@.len()
                                && (#[trigger] old(self).dali_config.buses@[bus_number as int].groups@[m]).group_address
                                == group_address && old(self).dali_config.buses@[bus_number as int].groups@[m].members@.contains(
                                short_address,
                            );
                        if m < gidx {
                            assert(old(self).dali_config.buses@[bus_number as int].groups@[m].group_address
                                != group_address);
                        } else if m > gidx {
                            assert(old(self).dali_config.buses@[bus_number as int].groups@[gidx].group_address
                                != old(self).dali_config.buses@[bus_number as int].groups@[m].group_address);
                        }
                    }
                }
            }
            return Ok(DaliBusResult::NoReply);
        }
        if let Err(e) = self.dali_manager.remove_from_group_and_verify(
            bus_number,
            group_address,
            short_address,
        ) {
            return Err(CommandError::Dali(e));
        }
        let ghost pre_bus = self.dali_config.buses@[bus_number as int];
        let ghost pre = self.dali_config.buses@;
        let bus = &mut self.dali_config.buses[bus_number];
        bus.remove_from_group(group_address, short_address);
        proof {
            assert(self.dali_config.buses@ == pre.update(bus_number as int, *final(bus)));
            let (ri, rj) = choose|ri: int, rj: int|
                {
                    &&& 0 <= ri < pre_bus.groups@.len()
                    &&& (#[trigger] pre_bus.groups@[ri]).group_address == group_address
                    &&& 0 <= rj < pre_bus.groups@[ri].members@.len()
                    &&& #[trigger] pre_bus.groups@[ri].members@[rj] == short_address
                    &&& final(bus).groups@[ri].members@ == pre_bus.groups@[ri].members@.remove(rj)
                    &&& final(bus).groups@[ri].group_address == pre_bus.groups@[ri].group_address
                    &&& final(bus).groups@[ri].description == pre_bus.groups@[ri].description
                    &&& forall|k: int|
                        0 <= k < pre_bus.groups@.len() && k != ri
                            ==> #[trigger] final(bus).groups@[k] == pre_bus.groups@[k]
                };
            crate::config_payload::lemma_distinct_remove(pre_bus.groups@[ri].members@, rj);
            crate::config_payload::lemma_unique_remove_not_contains(
                pre_bus.groups@[ri].members@,
                rj,
                short_address,
            );
            if spec_config_closed(old(self).dali_config) {
                crate::config_payload::lemma_members_closed_shrunk(
                    old(self).dali_config.buses@[bus_number as int],
                    *final(bus),
                );
                assert forall|ii: int|
                    0 <= ii < self.dali_config.buses@.len() implies (
                #[trigger] self.dali_config.buses@[ii]).members_closed() by {
                    if ii != bus_number as int {
                        assert(self.dali_config.buses@[ii] == old(self).dali_config.buses@[ii]);
                    }
                }
            }
            assert(!final(bus).spec_member_of(group_address, short_address)) by {
                if final(bus).spec_member_of(group_address, short_address) {
                    let m = choose|m: int|
                        0 <= m < final(bus).groups@.len() && (
                        #[trigger] final(bus).groups@[m]).group_address == group_address && final(bus).groups@[m].members@.contains(short_address);
                    if m != ri {
                        if m < ri {
                            assert(pre_bus.groups@[m].group_address
                                != pre_bus.groups@[ri].group_address);
                        } else {
                            assert(pre_bus.groups@[ri].group_address
                                != pre_bus.groups@[m].group_address);
                        }
                    }
                }
            }
        }
        Ok(DaliBusResult::NoReply)
    }

    /// Discover devices on a bus by commissioning and give each one the
    /// lowest free short address.  `FindAllLights` clears the channel
    /// list first, so the discovered lights are numbered 0, 1, 2, ... in
    /// the order found; `FindNewLights` keeps the existing channels and
    /// only enumerates devices without a short address.
    #[verifier::loop_isolation(false)]
    pub fn find_lights(&mut self, bus_number: usize, all: bool) -> (r: Result<
        DaliBusResult,
        CommandError,
    >)
        requires
            old(self).wf(),
        ensures
            final(self).wf(),
            final(self).dali_manager.bus_count() == old(self).dali_manager.bus_count(),
            r matches Err(e) ==> !spec_is_status_error(e),
            bus_number >= old(self).dali_config.buses@.len() ==> r == Err::<
                DaliBusResult,
                CommandError,
            >(CommandError::BusNumber(bus_number)) && *final(self) == *old(self),
            final(self).dali_config.name == old(self).dali_config.name,
            final(self).dali_config.buses@.len() == old(self).dali_config.buses@.len(),
            forall|i: int|
                0 <= i < old(self).dali_config.buses@.len() && i != bus_number
                    ==> #[trigger] final(self).dali_config.buses@[i] == old(self).dali_config.buses@[i],
            bus_number < old(self).dali_config.buses@.len() ==> final(self).dali_config.buses@[bus_number as int].same_except_channels(
                old(self).dali_config.buses@[bus_number as int],
            ),
            r is Ok && all && bus_number < old(self).dali_config.buses@.len() ==> forall|k: int|
                0 <= k < final(self).dali_config.buses@[bus_number as int].channels@.len() ==> (
                #[trigger] final(self).dali_config.buses@[bus_number as int].channels@[k]).short_address
                    == k && final(self).dali_config.buses@[bus_number as int].channels@[k].description@
                    == text::spec_light_description(k as u8),
            !all && bus_number < old(self).dali_config.buses@.len() ==> final(self).dali_config.buses@[bus_number as int].channels@.len() >= old(self).dali_config.buses@[bus_number as int].channels@.len()
                && final(self).dali_config.buses@[bus_number as int].channels@.subrange(
                0,
                old(self).dali_config.buses@[bus_number as int].channels@.len() as int,
            ) == old(self).dali_config.buses@[bus_number as int].channels@,
            !all && bus_number < old(self).dali_config.buses@.len() ==> forall|k: int|
                old(self).dali_config.buses@[bus_number as int].channels@.len() <= k < final(self).dali_config.buses@[bus_number as int].channels@.len()
                    ==> spec_channel_filled_lowest(
                    final(self).dali_config.buses@[bus_number as int].channels@,
                    k,
                ),
    {
        if bus_number >= self.dali_config.buses.len() {
            return Err(CommandError::BusNumber(bus_number));
        }
        let ghost n0 = old(self).dali_config.buses@[bus_number as int].channels@.len();
        if all {
            let bus = &mut self.dali_config.buses[bus_number];
            bus.channels.clear();
            proof {
                assert(self.dali_config.buses@ == old(self).dali_config.buses@.update(
                    bus_number as int,
                    *final(bus),
                ));
            }
        }
        let selection = if all {
            DaliDeviceSelection::All
        } else {
            DaliDeviceSelection::WithoutShortAddress
        };
        let mut device_iterator = match DaliBusIterator::new(
            &mut self.dali_manager,
            bus_number,
            selection,
        ) {
            Ok(it) => it,
            Err(e) => {
                return Err(CommandError::Dali(e));
            },
        };
        let mut found: u32 = 0;
        loop
            invariant
                found <= 64,
                self.wf(),
                self.dali_manager.bus_count() == old(self).dali_manager.bus_count(),
                bus_number < self.dali_config.buses@.len(),
                device_iterator.spec_bus() == bus_number,
                device_iterator.spec_compare_cycles() <= 25 * (found as int) + 25,
                self.dali_config.name == old(self).dali_config.name,
                self.dali_config.buses@.len() == old(self).dali_config.buses@.len(),
                forall|i: int|
                    0 <= i < old(self).dali_config.buses@.len() && i != bus_number
                        ==> #[trigger] self.dali_config.buses@[i] == old(self).dali_config.buses@[i],
                self.dali_config.buses@[bus_number as int].same_except_channels(
                    old(self).dali_config.buses@[bus_number as int],
                ),
                all ==> forall|k: int|
                    0 <= k < self.dali_config.buses@[bus_number as int].channels@.len() ==> (
                    #[trigger] self.dali_config.buses@[bus_number as int].channels@[k]).short_address
                        == k && self.dali_config.buses@[bus_number as int].channels@[k].description@
                        == text::spec_light_description(k as u8),
                !all ==> self.dali_config.buses@[bus_number as int].channels@.len() >= n0
                    && self.dali_config.buses@[bus_number as int].channels@.subrange(0, n0 as int)
                    == old(self).dali_config.buses@[bus_number as int].channels@,
                !all ==> forall|k: int|
                    n0 <= k < self.dali_config.buses@[bus_number as int].channels@.len()
                        ==> spec_channel_filled_lowest(
                        self.dali_config.buses@[bus_number as int].channels@,
                        k,
                    ),
            decreases 64 - found,
        {
            let next = match device_iterator.find_next_device(&mut self.dali_manager) {
                Ok(v) => v,
                Err(e) => {
                    return Err(CommandError::Dali(e));
                },
            };
            if next.is_none() {
                return Ok(DaliBusResult::NoReply);
            }
            if found >= 64 {
                return Err(CommandError::ShortAddress(64));
            }
            let short_address = match first_unused_short_address(
                &self.dali_config.buses[bus_number],
            ) {
                Some(a) => a,
                None => {
                    return Err(CommandError::ShortAddress(64));
                },
            };
            if let Err(e) = self.dali_manager.program_short_address(bus_number, short_address) {
                return Err(CommandError::Dali(e));
            }
            let ghost pre = self.dali_config.buses@;
            let ghost pre_bus = self.dali_config.buses@[bus_number as int];
            let bus = &mut self.dali_config.buses[bus_number];
            let ghost pre_channels = bus.channels@;
            bus.channels.push(
                Channel {
                    description: text::light_description(short_address),
                    short_address,
                },
            );
            proof {
                assert(self.dali_config.buses@ == pre.update(bus_number as int, *final(bus)));
                lemma_channels_ok_push(pre_channels, final(bus).channels@.last());
                if all {
                    assert forall|k: int|
                        0 <= k < final(bus).channels@.len() implies (
                    #[trigger] final(bus).channels@[k]).short_address == k
                        && final(bus).channels@[k].description@ == text::spec_light_description(
                        k as u8,
                    ) by {
                        if k < pre_channels.len() {
                            assert(final(bus).channels@[k] == pre_channels[k]);
                        } else {
                            assert(short_address <= pre_channels.len()) by {
                                if short_address > pre_channels.len() {
                                    assert(pre_bus.spec_has_channel(
                                        pre_channels.len() as u8,
                                    ));
                                    let w = choose|w: int|
                                        0 <= w < pre_channels.len() && (
                                        #[trigger] pre_channels[w]).short_address
                                            == pre_channels.len() as u8;
                                }
                            }
                            assert(short_address >= pre_channels.len()) by {
                                if (short_address as int) < pre_channels.len() as int {
                                    assert(pre_channels[short_address as int].short_address
                                        == short_address as u8);
                                    assert(pre_bus.spec_has_channel(short_address));
                                }
                            }
                        }
                    }
                }
                if !all {
                    assert(final(bus).channels@.subrange(0, n0 as int) =~= old(self).dali_config.buses@[bus_number as int].channels@);
                    let new_len = final(bus).channels@.len();
                    assert forall|k: int|
                        n0 <= k < new_len implies spec_channel_filled_lowest(
                        final(bus).channels@,
                        k,
                    ) by {
                        if k < new_len - 1 {
                            lemma_filled_lowest_push(
                                pre_channels,
                                final(bus).channels@.last(),
                                k,
                            );
                        } else {
                            assert(final(bus).channels@[k] == final(bus).channels@.last());
                            assert(!spec_has_addr_before(
                                final(bus).channels@,
                                k,
                                short_address,
                            )) by {
                                if spec_has_addr_before(final(bus).channels@, k, short_address) {
                                    let m = choose|m: int|
                                        0 <= m < k && (
                                        #[trigger] final(bus).channels@[m]).short_address
                                            == short_address;
                                    assert(pre_channels[m].short_address == short_address);
                                    assert(pre_bus.spec_has_channel(short_address));
                                }
                            }
                            assert forall|b: u8|
                                b < short_address implies spec_has_addr_before(
                                final(bus).channels@,
                                k,
                                b,
                            ) by {
                                assert(pre_bus.spec_has_channel(b));
                                let m = choose|m: int|
                                    0 <= m < pre_channels.len() && (
                                    #[trigger] pre_channels[m]).short_address == b;
                                assert(final(bus).channels@[m].short_address == b);
                            }
                        }
                    }
                }
            }
            found += 1;
        }
    }

    /// Remove a light's short address on the device and drop its
    /// channel and group memberships from the configuration.
    pub fn remove_short_address(&mut self, bus_number: usize, short_address: u8) -> (r: Result<
        DaliBusResult,
        CommandError,
    >)
        requires
            old(self).wf(),
        ensures
            final(self).wf(),
            final(self).dali_manager.bus_count() == old(self).dali_manager.bus_count(),
            r matches Err(e) ==> !spec_is_status_error(e),
            bus_number >= old(self).dali_config.buses@.len() ==> r == Err::<
                DaliBusResult,
                CommandError,
            >(CommandError::BusNumber(bus_number)) && *final(self) == *old(self),
            final(self).dali_config.name == old(self).dali_config.name,
            final(self).dali_config.buses@.len() == old(self).dali_config.buses@.len(),
            forall|i: int|
                0 <= i < old(self).dali_config.buses@.len() && i != bus_number
                    ==> #[trigger] final(self).dali_config.buses@[i] == old(self).dali_config.buses@[i],
            bus_number < old(self).dali_config.buses@.len() ==> final(self).dali_config.buses@[bus_number as int].description
                == old(self).dali_config.buses@[bus_number as int].description && final(self).dali_config.buses@[bus_number as int].status == old(self).dali_config.buses@[bus_number as int].status,
            r is Ok ==> !final(self).dali_config.buses@[bus_number as int].spec_has_channel(
                short_address,
            ),
    {
        if bus_number >= self.dali_config.buses.len() {
            return Err(CommandError::BusNumber(bus_number));
        }
        let result = self.dali_manager.remove_short_address(
            &mut self.dali_config.buses[bus_number],
            short_address,
        );
        match result {
            Ok(r) => Ok(r),
            Err(e) => Err(CommandError::Dali(e)),
        }
    }

    /// Query one light's status and build the reply envelope that is
    /// published whatever the outcome.
    pub fn query_light_status(&mut self, bus: usize, short_address: u8) -> (out: (
        Result<DaliBusResult, CommandError>,
        QueryLightReply,
    ))
        requires
            old(self).wf(),
        ensures
            final(self).wf(),
            final(self).dali_manager.bus_count() == old(self).dali_manager.bus_count(),
            final(self).dali_config == old(self).dali_config,
            out.1.bus == bus,
            out.1.address == short_address,
            out.1.controller@ == old(self).dali_config.name@,
            out.0 is Ok <==> !out.1.failure,
            !out.1.failure ==> out.1.description@ == crate::command_payload::spec_status_description(
                out.1.status,
            ),
            out.1.failure ==> out.1.status == 0,
            out.0 matches Err(e) ==> !spec_is_status_error(e),
    {
        if bus >= self.dali_config.buses.len() {
            let error = CommandError::BusNumber(bus);
            let message = error.message();
            let reply = QueryLightReply::new_failure(
                self.dali_config.name.as_str(),
                bus,
                short_address,
                message.as_str(),
            );
            return (Err(error), reply);
        }
        match self.dali_manager.query_light_status(bus, short_address) {
            Ok(status) => {
                let reply = QueryLightReply::new(
                    self.dali_config.name.as_str(),
                    bus,
                    short_address,
                    status,
                );
                (Ok(DaliBusResult::NoReply), reply)
            },
            Err(e) => {
                let message = e.message();
                let reply = QueryLightReply::new_failure(
                    self.dali_config.name.as_str(),
                    bus,
                    short_address,
                    message.as_str(),
                );
                (Err(CommandError::Dali(e)), reply)
            },
        }
    }

    /// Dispatch one parsed command: run the bus-health pre-check where
    /// the command mutates state, perform the command, and report the
    /// outcome together with the republish decision and, for a query,
    /// the reply envelope.  A bus that does not report itself active
    /// rejects every mutating command except `RenameBus`, without any
    /// bus traffic and with nothing but the cached statuses changed.
    #[verifier::rlimit(100)]
    pub fn dispatch(&mut self, command: &DaliCommand) -> (outcome: DispatchOutcome)
        requires
            old(self).wf(),
        ensures
            final(self).wf(),
            final(self).dali_manager.bus_count() == old(self).dali_manager.bus_count(),
            outcome.republish == (outcome.result is Ok && spec_republishes(*command)),
            (outcome.reply is Some) <==> (*command matches DaliCommand::QueryLightStatus { .. }),
            spec_requires_active(*command) && outcome.result is Ok ==> (spec_command_bus(*command) matches Some(b)
                && b < final(self).dali_config.buses@.len()
                && final(self).dali_config.buses@[b as int].status is Active),
            spec_requires_active(*command) && (outcome.result matches Err(e)
                && spec_is_status_error(e)) ==> final(self).dali_manager.frames() == old(self).dali_manager.frames()
                && spec_same_except_statuses(old(self).dali_config, final(self).dali_config),
            spec_preserves_closure(*command) && spec_config_closed(old(self).dali_config)
                ==> spec_config_closed(final(self).dali_config),
    {
        match command {
            DaliCommand::SetLightBrightness { bus, address, value } => {
                let result = if *bus >= self.dali_config.buses.len() {
                    Err(CommandError::BusNumber(*bus))
                } else {
                    match self.dali_manager.set_light_brightness(*bus, *address, *value) {
                        Ok(r) => Ok(r),
                        Err(e) => Err(CommandError::Dali(e)),
                    }
                };
                proof {
                    assert(spec_config_closed(old(self).dali_config) ==> spec_config_closed(
                        self.dali_config,
                    ));
                }
                DispatchOutcome { result, republish: false, reply: None }
            },
            DaliCommand::SetGroupBrightness { bus, group, value } => {
                let result = if *bus >= self.dali_config.buses.len() {
                    Err(CommandError::BusNumber(*bus))
                } else {
                    match self.dali_manager.set_group_brightness(*bus, *group, *value) {
                        Ok(r) => Ok(r),
                        Err(e) => Err(CommandError::Dali(e)),
                    }
                };
                proof {
                    assert(spec_config_closed(old(self).dali_config) ==> spec_config_closed(
                        self.dali_config,
                    ));
                }
                DispatchOutcome { result, republish: false, reply: None }
            },
            DaliCommand::UpdateBusStatus => {
                let result = self.update_bus_status();
                proof {
                    assert(spec_config_closed(old(self).dali_config) ==> spec_config_closed(
                        self.dali_config,
                    ));
                }
                DispatchOutcome { result, republish: false, reply: None }
            },
            DaliCommand::RenameBus { bus, name } => {
                let result = self.rename_bus(*bus, name.as_str());
                let ok = matches!(result, Ok(_));
                proof {
                    assert(spec_config_closed(old(self).dali_config) ==> spec_config_closed(
                        self.dali_config,
                    ));
                }
                DispatchOutcome { result, republish: ok, reply: None }
            },
            DaliCommand::RenameLight { bus, address, name } => {
                let checked = self.check_bus(*bus);
                let ghost mid = *self;
                let result = match checked {
                    Err(e) => Err(e),
                    Ok(_) => self.rename_light(*bus, *address, name.as_str()),
                };
                let ok = matches!(result, Ok(_));
                proof {
                    if spec_config_closed(old(self).dali_config) {
                        assert(spec_config_closed(mid.dali_config));
                        assert(spec_config_closed(self.dali_config));
                    }
                }
                DispatchOutcome { result, republish: ok, reply: None }
            },
            DaliCommand::RenameGroup { bus, group, name } => {
                let result = match self.check_bus(*bus) {
                    Err(e) => Err(e),
                    Ok(_) => self.rename_group(*bus, *group, name.as_str()),
                };
                let ok = matches!(result, Ok(_));
                proof {
                    assert(spec_config_closed(old(self).dali_config) ==> spec_config_closed(
                        self.dali_config,
                    ));
                }
                DispatchOutcome { result, republish: ok, reply: None }
            },
            DaliCommand::NewGroup { bus } => {
                let result = match self.check_bus(*bus) {
                    Err(e) => Err(e),
                    Ok(_) => self.new_group(*bus),
                };
                let ok = matches!(result, Ok(_));
                proof {
                    assert(spec_config_closed(old(self).dali_config) ==> spec_config_closed(
                        self.dali_config,
                    ));
                }
                DispatchOutcome { result, republish: ok, reply: None }
            },
            DaliCommand::AddToGroup { bus, group, address } => {
                let result = match self.check_bus(*bus) {
                    Err(e) => Err(e),
                    Ok(_) => self.add_to_group(*bus, *group, *address),
                };
                let ok = matches!(result, Ok(_));
                proof {
                    assert(spec_config_closed(old(self).dali_config) ==> spec_config_closed(
                        self.dali_config,
                    ));
                }
                DispatchOutcome { result, republish: ok, reply: None }
            },
            DaliCommand::MatchGroup { bus, group, pattern } => {
                let result = match self.check_bus(*bus) {
                    Err(e) => Err(e),
                    Ok(_) => {
                        let ghost mid = *self;
                        let matched = self.dali_manager.match_group(
                            &mut self.dali_config.buses[*bus],
                            *group,
                            pattern.as_str(),
                        );
                        proof {
                            if spec_config_closed(old(self).dali_config) {
                                assert forall|ii: int|
                                    0 <= ii < self.dali_config.buses@.len() implies (
                                #[trigger] self.dali_config.buses@[ii]).members_closed() by {
                                    if ii != *bus as int {
                                        assert(self.dali_config.buses@[ii]
                                            == mid.dali_config.buses@[ii]);
                                    } else {
                                        assert(mid.dali_config.buses@[ii].members_closed());
                                    }
                                }
                            }
                        }
                        match matched {
                            Ok(_actions) => Ok(DaliBusResult::NoReply),
                            Err(e) => Err(CommandError::Dali(e)),
                        }
                    },
                };
                let ok = matches!(result, Ok(_));
                proof {
                    assert(spec_config_closed(old(self).dali_config) ==> spec_config_closed(
                        self.dali_config,
                    ));
                }
                DispatchOutcome { result, republish: ok, reply: None }
            },
            DaliCommand::RemoveGroup { bus, group } => {
                let result = match self.check_bus(*bus) {
                    Err(e) => Err(e),
                    Ok(_) => self.remove_group(*bus, *group),
                };
                let ok = matches!(result, Ok(_));
                proof {
                    assert(spec_config_closed(old(self).dali_config) ==> spec_config_closed(
                        self.dali_config,
                    ));
                }
                DispatchOutcome { result, republish: ok, reply: None }
            },
            DaliCommand::RemoveFromGroup { bus, group, address } => {
                let result = match self.check_bus(*bus) {
                    Err(e) => Err(e),
                    Ok(_) => self.remove_from_group(*bus, *group, *address),
                };
                let ok = matches!(result, Ok(_));
                proof {
                    assert(spec_config_closed(old(self).dali_config) ==> spec_config_closed(
                        self.dali_config,
                    ));
                }
                DispatchOutcome { result, republish: ok, reply: None }
            },
            DaliCommand::FindAllLights { bus } => {
                let result = match self.check_bus(*bus) {
                    Err(e) => Err(e),
                    Ok(_) => self.find_lights(*bus, true),
                };
                let ok = matches!(result, Ok(_));
DispatchOutcome { result, republish: ok, reply: None }
            },
            DaliCommand::FindNewLights { bus } => {
                let result = match self.check_bus(*bus) {
                    Err(e) => Err(e),
                    Ok(_) => self.find_lights(*bus, false),
                };
                let ok = matches!(result, Ok(_));
DispatchOutcome { result, republish: ok, reply: None }
            },
            DaliCommand::QueryLightStatus { bus, address } => {
                let out = self.query_light_status(*bus, *address);
                proof {
                    assert(spec_config_closed(old(self).dali_config) ==> spec_config_closed(
                        self.dali_config,
                    ));
                }
                DispatchOutcome { result: out.0, republish: false, reply: Some(out.1) }
            },
            DaliCommand::RemoveShortAddress { bus, address } => {
                let result = match self.check_bus(*bus) {
                    Err(e) => Err(e),
                    Ok(_) => self.remove_short_address(*bus, *address),
                };
                let ok = matches!(result, Ok(_));
DispatchOutcome { result, republish: ok, reply: None }
            },
            DaliCommand::SetLightFadeTime { bus, address, fade_time } => {
                let result = match self.check_bus(*bus) {
                    Err(e) => Err(e),
                    Ok(_) => {
                        let ghost mid = *self;
                        let sent = self.dali_manager.set_light_fade_time(
                            *bus,
                            *address,
                            *fade_time,
                        );
                        proof {
                            assert(self.dali_config == mid.dali_config);
                        }
                        match sent {
                            Ok(r) => Ok(r),
                            Err(e) => Err(CommandError::Dali(e)),
                        }
                    },
                };
                let ok = matches!(result, Ok(_));
                proof {
                    assert(spec_config_closed(old(self).dali_config) ==> spec_config_closed(
                        self.dali_config,
                    ));
                }
                DispatchOutcome { result, republish: ok, reply: None }
            },
            DaliCommand::SetGroupFadeTime { bus, group, fade_time } => {
                let result = match self.check_bus(*bus) {
                    Err(e) => Err(e),
                    Ok(_) => {
                        let ghost mid = *self;
                        let sent = self.dali_manager.set_group_fade_time(*bus, *group, *fade_time);
                        proof {
                            assert(self.dali_config == mid.dali_config);
                        }
                        match sent {
                            Ok(r) => Ok(r),
                            Err(e) => Err(CommandError::Dali(e)),
                        }
                    },
                };
                let ok = matches!(result, Ok(_));
                proof {
                    assert(spec_config_closed(old(self).dali_config) ==> spec_config_closed(
                        self.dali_config,
                    ));
                }
                DispatchOutcome { result, republish: ok, reply: None }
            },
        }
    }
}

/// The bus a command addresses, if it names one.
pub open spec fn spec_command_bus(command: DaliCommand) -> Option<usize> {
    match command {
        DaliCommand::SetLightBrightness { bus, .. } => Some(bus),
        DaliCommand::SetGroupBrightness { bus, .. } => Some(bus),
        DaliCommand::UpdateBusStatus => None,
        DaliCommand::RenameBus { bus, .. } => Some(bus),
        DaliCommand::RenameLight { bus, .. } => Some(bus),
        DaliCommand::RenameGroup { bus, .. } => Some(bus),
        DaliCommand::NewGroup { bus } => Some(bus),
        DaliCommand::AddToGroup { bus, .. } => Some(bus),
        DaliCommand::MatchGroup { bus, .. } => Some(bus),
        DaliCommand::RemoveGroup { bus, .. } => Some(bus),
        DaliCommand::RemoveFromGroup { bus, .. } => Some(bus),
        DaliCommand::FindAllLights { bus } => Some(bus),
        DaliCommand::FindNewLights { bus } => Some(bus),
        DaliCommand::QueryLightStatus { bus, .. } => Some(bus),
        DaliCommand::RemoveShortAddress { bus, .. } => Some(bus),
        DaliCommand::SetLightFadeTime { bus, .. } => Some(bus),
        DaliCommand::SetGroupFadeTime { bus, .. } => Some(bus),
    }
}

/// The lowest unused short address of a bus, starting at 0.
fn first_unused_short_address(bus: &crate::config_payload::BusConfig) -> (r: Option<u8>)
    ensures
        match r {
            Some(a) => a < 64 && !bus.spec_has_channel(a) && forall|b: u8|
                b < a ==> bus.spec_has_channel(b),
            None => forall|b: u8| b < 64 ==> bus.spec_has_channel(b),
        },
{
    let mut a: u8 = 0;
    while a < 64
        invariant
            a <= 64,
            forall|b: u8| b < a ==> bus.spec_has_channel(b),
        decreases 64 - a,
    {
        if bus.get_channel_index(a).is_none() {
            return Some(a);
        }
        a += 1;
    }
    None
}

/// The error text of a dispatcher failure.
pub open spec fn spec_command_error_message(e: CommandError) -> Seq<char> {
    match e {
        CommandError::BusNumber(b) => "Invalid bus number: "@ + text::spec_dec_chars(b as int),
        CommandError::ShortAddress(a) => "Invalid short address: "@ + text::spec_dec_chars(
            a as int,
        ),
        CommandError::GroupAddress(g) => "Invalid group address: "@ + text::spec_dec_chars(
            g as int,
        ),
        CommandError::BusHasNoPower(b) => "Bus "@ + text::spec_dec_chars(b as int)
            + " has no power"@,
        CommandError::BusOverloaded(b) => "Bus "@ + text::spec_dec_chars(b as int)
            + " is overloaded"@,
        CommandError::InvalidBusStatus(b) => "Bus "@ + text::spec_dec_chars(b as int)
            + " has invalid status"@,
        CommandError::NoMoreGroups(b) => "No more groups can be added to bus "@
            + text::spec_dec_chars(b as int),
        CommandError::NoSuchGroup(b, g) => "Bus "@ + text::spec_dec_chars(b as int)
            + " has no group "@ + text::spec_dec_chars(g as int),
        CommandError::Dali(inner) => crate::dali_manager::spec_manager_error_message(inner),
    }
}

impl CommandError {
    /// Render this error as text.
    pub fn message(&self) -> (s: String)
        ensures
            s@ == spec_command_error_message(*self),
    {
        match self {
            CommandError::BusNumber(b) => {
                let mut s = String::from_str("Invalid bus number: ");
                s.append(text::dec_string(*b as u64).as_str());
                s
            },
            CommandError::ShortAddress(a) => {
                let mut s = String::from_str("Invalid short address: ");
                s.append(text::dec_string(*a as u64).as_str());
                s
            },
            CommandError::GroupAddress(g) => {
                let mut s = String::from_str("Invalid group address: ");
                s.append(text::dec_string(*g as u64).as_str());
                s
            },
            CommandError::BusHasNoPower(b) => {
                let mut s = String::from_str("Bus ");
                s.append(text::dec_string(*b as u64).as_str());
                s.append(" has no power");
                s
            },
            CommandError::BusOverloaded(b) => {
                let mut s = String::from_str("Bus ");
                s.append(text::dec_string(*b as u64).as_str());
                s.append(" is overloaded");
                s
            },
            CommandError::InvalidBusStatus(b) => {
                let mut s = String::from_str("Bus ");
                s.append(text::dec_string(*b as u64).as_str());
                s.append(" has invalid status");
                s
            },
            CommandError::NoMoreGroups(b) => {
                let mut s = String::from_str("No more groups can be added to bus ");
                s.append(text::dec_string(*b as u64).as_str());
                s
            },
            CommandError::NoSuchGroup(b, g) => {
                let mut s = String::from_str("Bus ");
                s.append(text::dec_string(*b as u64).as_str());
                s.append(" has no group ");
                s.append(text::dec_string(*g as u64).as_str());
                s
            },
            CommandError::Dali(inner) => inner.message(),
        }
    }
}

} // verus!
