//! Pattern-based group reconciliation: make a group's membership agree
//! with a regular expression over the lights' descriptions, adding the
//! missing members and removing the ones whose names no longer match.
//! A run that finds nothing to change writes nothing to the bus.

use vstd::prelude::*;

use crate::config_payload::{
    lemma_push_contains, lemma_remove_other_contains, lemma_unique_push,
    lemma_unique_remove_not_contains, vec_contains, BusConfig, Group,
};
use crate::dali_manager::{DaliController, DaliManager, DaliManagerError};
use crate::frames::DaliFrame;
use crate::text;

verus! {

/// Whether a pattern compiles as a regular expression.  The result of
/// `regex::Regex::new` on given text, named.
pub uninterp spec fn regex_valid(pattern: Seq<char>) -> bool;

/// Whether a compiled pattern matches a text.  The result of
/// `regex::Regex::is_match` on given pattern and text, named.
pub uninterp spec fn regex_is_match(pattern: Seq<char>, text: Seq<char>) -> bool;

/// Relies on `regex::Regex::new`: whether a pattern compiles depends on
/// the pattern text alone.
#[verifier::external_body]
fn regex_check(pattern: &str) -> (r: bool)
    ensures
        r == regex_valid(pattern@),
{
    regex::Regex::new(pattern).is_ok()
}

/// Relies on `regex::Regex::new` and `regex::Regex::is_match`: whether
/// the pattern compiles, and whether it matches the text, depend on the
/// two strings alone.
#[verifier::external_body]
fn regex_match(pattern: &str, text: &str) -> (r: Option<bool>)
    ensures
        r is Some <==> regex_valid(pattern@),
        r matches Some(m) ==> m == regex_is_match(pattern@, text@),
{
    match regex::Regex::new(pattern) {
        Ok(re) => Some(re.is_match(text)),
        Err(_) => None,
    }
}

/// One change a group reconciliation applied, carrying the light's
/// short address.
#[derive(Debug, Clone, Copy, PartialEq, Eq, Structural)]
pub enum MatchGroupAction {
    AddMember(u8),
    RemoveMember(u8),
}

/// The members of `bus_config.groups[gi]` agree with `pattern`: every
/// channel is a member exactly when its description matches.
pub open spec fn spec_group_matched(bus_config: BusConfig, gi: int, pattern: Seq<char>) -> bool {
    forall|k: int|
        0 <= k < bus_config.channels@.len() ==> (bus_config.groups@[gi].members@.contains(
            (#[trigger] bus_config.channels@[k]).short_address,
        ) <==> regex_is_match(pattern, bus_config.channels@[k].description@))
}

/// The configuration already lists some group with address `g` whose
/// membership agrees with `pattern`.
pub open spec fn spec_already_matched(bus_config: BusConfig, g: u8, pattern: Seq<char>) -> bool {
    exists|gi: int|
        0 <= gi < bus_config.groups@.len() && (#[trigger] bus_config.groups@[gi]).group_address
            == g && spec_group_matched(bus_config, gi, pattern)
}

impl<C: DaliController> DaliManager<C> {
    /// Reconcile group `group_address` against `light_name_pattern`:
    /// add every light whose description matches, remove every member
    /// whose description does not, verifying each change on the device.
    /// The group is created when absent.  A run on a configuration that
    /// already agrees with the pattern performs no device write at all.
    #[verifier::loop_isolation(false)]
    #[verifier::rlimit(100)]
    pub fn match_group(
        &mut self,
        bus_config: &mut BusConfig,
        group_address: u8,
        light_name_pattern: &str,
    ) -> (r: Result<Vec<MatchGroupAction>, DaliManagerError>)
        requires
            old(bus_config).bus < old(self).bus_count(),
            old(bus_config).wf(),
        ensures
            final(self).bus_count() == old(self).bus_count(),
            final(bus_config).wf(),
            final(bus_config).description == old(bus_config).description,
            final(bus_config).status == old(bus_config).status,
            final(bus_config).bus == old(bus_config).bus,
            final(bus_config).channels == old(bus_config).channels,
            old(bus_config).members_closed() ==> final(bus_config).members_closed(),
            group_address >= 16 ==> r == Err::<Vec<MatchGroupAction>, DaliManagerError>(
                DaliManagerError::GroupAddress(group_address),
            ) && *final(bus_config) == *old(bus_config) && final(self).frames() == old(self).frames(),
            group_address < 16 && !regex_valid(light_name_pattern@) ==> r == Err::<
                Vec<MatchGroupAction>,
                DaliManagerError,
            >(DaliManagerError::Pattern) && *final(bus_config) == *old(bus_config) && final(self).frames() == old(self).frames(),
            r matches Ok(actions) ==> actions@.len() == 0 ==> final(self).frames() == old(self).frames(),
            r is Ok ==> exists|gi: int|
                0 <= gi < final(bus_config).groups@.len() && (
                #[trigger] final(bus_config).groups@[gi]).group_address == group_address
                    && spec_group_matched(*final(bus_config), gi, light_name_pattern@),
            group_address < 16 && regex_valid(light_name_pattern@) && spec_already_matched(
                *old(bus_config),
                group_address,
                light_name_pattern@,
            ) ==> r is Ok && *final(bus_config) == *old(bus_config) && final(self).frames()
                == old(self).frames() && (r matches Ok(actions) ==> actions@.len() == 0),
    {
        if group_address >= 16 {
            return Err(DaliManagerError::GroupAddress(group_address));
        }
        if !regex_check(light_name_pattern) {
            return Err(DaliManagerError::Pattern);
        }
        let ghost pattern = light_name_pattern@;
        let gi = match bus_config.get_group_index(group_address) {
            Some(i) => i,
            None => {
                let index = bus_config.groups.len();
                bus_config.groups.push(
                    Group {
                        description: text::new_group_description(group_address),
                        group_address,
                        members: Vec::new(),
                    },
                );
                index
            },
        };
        let ghost created = *bus_config;
        proof {
            assert(created.wf());
            if old(bus_config).members_closed() {
                assert(created.members_closed()) by {
                    assert forall|gk: int, mj: int|
                        0 <= gk < created.groups@.len() && 0 <= mj < created.groups@[gk].members@.len() implies created.spec_has_channel(
                        #[trigger] created.groups@[gk].members@[mj],
                    ) by {
                        if gk < old(bus_config).groups@.len() {
                            assert(created.groups@[gk] == old(bus_config).groups@[gk]);
                            let v = created.groups@[gk].members@[mj];
                            assert(old(bus_config).spec_has_channel(v));
                            let w = choose|w: int|
                                0 <= w < old(bus_config).channels@.len() && (
                                #[trigger] old(bus_config).channels@[w]).short_address == v;
                            assert(created.channels@[w].short_address == v);
                        } else {
                            assert(created.groups@[gk].members@.len() == 0);
                        }
                    }
                }
            }
            assert(spec_already_matched(*old(bus_config), group_address, pattern)
                ==> *old(bus_config) == created) by {
                if spec_already_matched(*old(bus_config), group_address, pattern) {
                    assert(old(bus_config).spec_has_group(group_address));
                }
            }
        }
        let mut actions: Vec<MatchGroupAction> = Vec::new();
        let n = bus_config.channels.len();
        let mut i: usize = 0;
        while i < n
            invariant
                i <= n,
                n == bus_config.channels@.len(),
                self.bus_count() == old(self).bus_count(),
                bus_config.bus == created.bus,
                bus_config.description == created.description,
                bus_config.status == created.status,
                bus_config.channels == created.channels,
                bus_config.wf(),
                gi < bus_config.groups@.len(),
                bus_config.groups@.len() == created.groups@.len(),
                bus_config.groups@[gi as int].group_address == group_address,
                bus_config.groups@[gi as int].description == created.groups@[gi as int].description,
                forall|k: int| 0 <= k < gi ==> created.groups@[k].group_address != group_address,
                forall|k: int|
                    0 <= k < created.groups@.len() && k != gi ==> #[trigger] bus_config.groups@[k]
                        == created.groups@[k],
                forall|k: int|
                    0 <= k < i ==> (bus_config.groups@[gi as int].members@.contains(
                        (#[trigger] bus_config.channels@[k]).short_address,
                    ) <==> regex_is_match(pattern, bus_config.channels@[k].description@)),
                forall|a: u8|
                    !created.spec_has_channel(a) ==> (
                    #[trigger] bus_config.groups@[gi as int].members@.contains(a)
                        <==> created.groups@[gi as int].members@.contains(a)),
                actions@.len() == 0 ==> *bus_config == created && self.frames() == old(self).frames(),
                spec_already_matched(created, group_address, pattern) ==> actions@.len() == 0,
                created.members_closed() ==> bus_config.members_closed(),
            decreases n - i,
        {
            let ghost pre_loop = *bus_config;
            let channel_address = bus_config.channels[i].short_address;
            let matched = match regex_match(
                light_name_pattern,
                bus_config.channels[i].description.as_str(),
            ) {
                Some(m) => m,
                None => false,
            };
            proof {
                assert(matched == regex_is_match(pattern, bus_config.channels@[i as int].description@));
                if spec_already_matched(created, group_address, pattern) && actions@.len() == 0 {
                    let gi0 = choose|gi0: int|
                        0 <= gi0 < created.groups@.len() && (
                        #[trigger] created.groups@[gi0]).group_address == group_address
                            && spec_group_matched(created, gi0, pattern);
                    if gi0 != gi as int {
                        if gi0 < gi as int {
                            assert(created.groups@[gi0].group_address != group_address);
                        } else {
                            assert(created.groups@[gi as int].group_address != created.groups@[gi0].group_address);
                        }
                    }
                    assert(bus_config.groups@[gi as int].members@.contains(channel_address)
                        <==> regex_is_match(pattern, bus_config.channels@[i as int].description@));
                }
            }
            let is_member = vec_contains(&bus_config.groups[gi].members, channel_address);
            if matched && !is_member {
                let sent = self.add_to_group_and_verify(
                    bus_config.bus,
                    group_address,
                    channel_address,
                );
                if let Err(e) = sent {
                    return Err(e);
                }
                let ghost pre = *bus_config;
                let group = &mut bus_config.groups[gi];
                group.members.push(channel_address);
                actions.push(MatchGroupAction::AddMember(channel_address));
                proof {
                    assert(bus_config.groups@ == pre.groups@.update(gi as int, *final(group)));
                    lemma_unique_push(pre.groups@[gi as int].members@, channel_address);
                    assert(bus_config.wf());
                    assert forall|k: int|
                        0 <= k < i + 1 implies (bus_config.groups@[gi as int].members@.contains(
                        (#[trigger] bus_config.channels@[k]).short_address,
                    ) <==> regex_is_match(pattern, bus_config.channels@[k].description@)) by {
                        let addr_k = bus_config.channels@[k].short_address;
                        lemma_push_contains(
                            pre.groups@[gi as int].members@,
                            channel_address,
                            addr_k,
                        );
                        if k < i {
                            assert(addr_k != channel_address);
                        }
                    }
                    assert forall|a: u8| !created.spec_has_channel(a) implies (
                        #[trigger] bus_config.groups@[gi as int].members@.contains(a)
                        <==> created.groups@[gi as int].members@.contains(a)) by {
                        assert(created.spec_has_channel(channel_address));
                        assert(a != channel_address);
                        lemma_push_contains(pre.groups@[gi as int].members@, channel_address, a);
                    }
                    if created.members_closed() {
                        assert forall|gk: int, mj: int|
                            0 <= gk < bus_config.groups@.len() && 0 <= mj < bus_config.groups@[gk].members@.len() implies bus_config.spec_has_channel(
                            #[trigger] bus_config.groups@[gk].members@[mj],
                        ) by {
                            let v = bus_config.groups@[gk].members@[mj];
                            if gk == gi as int && mj == bus_config.groups@[gk].members@.len() - 1 {
                                assert(v == channel_address);
                                assert(bus_config.channels@[i as int].short_address == v);
                            } else {
                                assert(pre.groups@[gk].members@[mj] == v);
                                assert(pre.spec_has_channel(v));
                                let w = choose|w: int|
                                    0 <= w < pre.channels@.len() && (
                                    #[trigger] pre.channels@[w]).short_address == v;
                                assert(bus_config.channels@[w].short_address == v);
                            }
                        }
                    }
                }
            } else if !matched && is_member {
                let sent = self.remove_from_group_and_verify(
                    bus_config.bus,
                    group_address,
                    channel_address,
                );
                if let Err(e) = sent {
                    return Err(e);
                }
                let ghost pre = *bus_config;
                bus_config.remove_from_group(group_address, channel_address);
                actions.push(MatchGroupAction::RemoveMember(channel_address));
                proof {
                    let (ri, rj) = choose|ri: int, rj: int|
                        {
                            &&& 0 <= ri < pre.groups@.len()
                            &&& (#[trigger] pre.groups@[ri]).group_address == group_address
                            &&& 0 <= rj < pre.groups@[ri].members@.len()
                            &&& #[trigger] pre.groups@[ri].members@[rj] == channel_address
                            &&& bus_config.groups@[ri].members@ == pre.groups@[ri].members@.remove(
                                rj,
                            )
                            &&& bus_config.groups@[ri].group_address == pre.groups@[ri].group_address
                            &&& bus_config.groups@[ri].description == pre.groups@[ri].description
                            &&& forall|k: int|
                                0 <= k < pre.groups@.len() && k != ri
                                    ==> #[trigger] bus_config.groups@[k] == pre.groups@[k]
                        };
                    if ri != gi as int {
                        if ri < gi as int {
                            assert(created.groups@[ri].group_address != group_address);
                        } else {
                            assert(pre.groups@[gi as int].group_address != pre.groups@[ri].group_address);
                        }
                    }
                    assert(ri == gi as int);
                    lemma_unique_remove_not_contains(
                        pre.groups@[gi as int].members@,
                        rj,
                        channel_address,
                    );
                    assert(bus_config.wf()) by {
                        crate::config_payload::lemma_distinct_remove(
                            pre.groups@[gi as int].members@,
                            rj,
                        );
                    }
                    assert forall|k: int|
                        0 <= k < i + 1 implies (bus_config.groups@[gi as int].members@.contains(
                        (#[trigger] bus_config.channels@[k]).short_address,
                    ) <==> regex_is_match(pattern, bus_config.channels@[k].description@)) by {
                        let addr_k = bus_config.channels@[k].short_address;
                        if k < i {
                            assert(addr_k != channel_address);
                            lemma_remove_other_contains(
                                pre.groups@[gi as int].members@,
                                rj,
                                addr_k,
                            );
                        }
                    }
                    assert forall|a: u8| !created.spec_has_channel(a) implies (
                        #[trigger] bus_config.groups@[gi as int].members@.contains(a)
                        <==> created.groups@[gi as int].members@.contains(a)) by {
                        assert(created.spec_has_channel(channel_address));
                        assert(a != channel_address);
                        lemma_remove_other_contains(pre.groups@[gi as int].members@, rj, a);
                    }
                    if created.members_closed() {
                        assert forall|gk: int|
                            0 <= gk < bus_config.groups@.len() implies ((gk
                            < pre.groups@.len() && ((#[trigger] bus_config.groups@[gk]).members@
                            == pre.groups@[gk].members@ || exists|j: int|
                            0 <= j < pre.groups@[gk].members@.len() && bus_config.groups@[gk].members@
                                == pre.groups@[gk].members@.remove(j))) || bus_config.groups@[gk].members@.len()
                            == 0) by {
                            if gk == gi as int {
                                assert(0 <= rj < pre.groups@[gk].members@.len()
                                    && bus_config.groups@[gk].members@ == pre.groups@[gk].members@.remove(
                                    rj,
                                ));
                            }
                        }
                        crate::config_payload::lemma_members_closed_shrunk(pre, *bus_config);
                    }
                }
            }
            i += 1;
        }
        Ok(actions)
    }
}

/// All frames a membership repair on `bus` may send: commands and
/// queries addressed to the configured channels of that bus.
pub open spec fn spec_repair_allowed(bus: usize, channels: Seq<crate::config_payload::Channel>) -> Set<
    DaliFrame,
> {
    Set::new(
        |f: DaliFrame|
            f.bus == bus && exists|k: int|
                0 <= k < channels.len() && f.b1 == crate::frames::spec_command_short_address(
                    (#[trigger] channels[k]).short_address,
                ),
    )
}

impl<C: DaliController> DaliManager<C> {
    /// Repair drift between the on-device group masks and the
    /// configuration: take each light out of the groups its mask names
    /// that the configuration does not define, and put it back into the
    /// groups the configuration lists it in.  Device failures on single
    /// lights are skipped so the rest of the bus still gets repaired;
    /// only configured channels are ever addressed.
    #[verifier::loop_isolation(false)]
    pub fn fix_group_membership(&mut self, bus_config: &BusConfig)
        requires
            bus_config.bus < old(self).bus_count(),
            bus_config.wf(),
        ensures
            final(self).bus_count() == old(self).bus_count(),
            crate::dali_manager::spec_appended_within(
                old(self).frames(),
                final(self).frames(),
                spec_repair_allowed(bus_config.bus, bus_config.channels@),
            ),
            forall|k: int|
                0 <= k < bus_config.channels@.len() ==> crate::dali_manager::spec_frame_sent(
                    old(self).frames().len() as int,
                    final(self).frames(),
                    crate::dali_manager::spec_command_short_frame(
                        bus_config.bus,
                        crate::dali_commands::DALI_QUERY_GROUPS_0_7,
                        (#[trigger] bus_config.channels@[k]).short_address,
                        false,
                    ),
                ),
    {
        let bus = bus_config.bus;
        let ghost allowed = spec_repair_allowed(bus, bus_config.channels@);
        let ghost lo = old(self).frames().len() as int;
        proof {
            crate::dali_manager::lemma_appended_within_refl(self.frames(), allowed);
        }
        let n = bus_config.channels.len();
        let mut i: usize = 0;
        while i < n
            invariant
                i <= n,
                self.bus_count() == old(self).bus_count(),
                crate::dali_manager::spec_appended_within(
                    old(self).frames(),
                    self.frames(),
                    allowed,
                ),
                forall|k: int|
                    0 <= k < i ==> crate::dali_manager::spec_frame_sent(
                        lo,
                        self.frames(),
                        crate::dali_manager::spec_command_short_frame(
                            bus,
                            crate::dali_commands::DALI_QUERY_GROUPS_0_7,
                            (#[trigger] bus_config.channels@[k]).short_address,
                            false,
                        ),
                    ),
            decreases n - i,
        {
            let short_address = bus_config.channels[i].short_address;
            let ghost p0 = self.frames();
            let queried = self.query_group_membership(bus, short_address);
            proof {
                lemma_repair_step(
                    old(self).frames(),
                    p0,
                    self.frames(),
                    bus,
                    bus_config.channels@,
                    i as int,
                );
                assert forall|k: int| 0 <= k < i + 1 implies crate::dali_manager::spec_frame_sent(
                    lo,
                    self.frames(),
                    crate::dali_manager::spec_command_short_frame(
                        bus,
                        crate::dali_commands::DALI_QUERY_GROUPS_0_7,
                        (#[trigger] bus_config.channels@[k]).short_address,
                        false,
                    ),
                ) by {
                    if k < i {
                        crate::dali_manager::lemma_frame_sent_extend(
                            lo,
                            p0,
                            self.frames(),
                            crate::dali_manager::spec_command_short_frame(
                                bus,
                                crate::dali_commands::DALI_QUERY_GROUPS_0_7,
                                bus_config.channels@[k].short_address,
                                false,
                            ),
                        );
                    }
                }
            }
            let group_mask = match queried {
                Ok(m) => m,
                Err(_) => {
                    i += 1;
                    continue ;
                },
            };
            // Memberships the device reports but the configuration does
            // not define: remove them.
            let mut group_address: u8 = 0;
            while group_address < 16
                invariant
                    group_address <= 16,
                    self.bus_count() == old(self).bus_count(),
                    crate::dali_manager::spec_appended_within(
                        old(self).frames(),
                        self.frames(),
                        allowed,
                    ),
                    forall|k: int|
                        0 <= k < i + 1 ==> crate::dali_manager::spec_frame_sent(
                            lo,
                            self.frames(),
                            crate::dali_manager::spec_command_short_frame(
                                bus,
                                crate::dali_commands::DALI_QUERY_GROUPS_0_7,
                                (#[trigger] bus_config.channels@[k]).short_address,
                                false,
                            ),
                        ),
                decreases 16 - group_address,
            {
                if crate::dali_manager::group_mask_has(group_mask, group_address)
                    && bus_config.get_group_index(group_address).is_none() {
                    let ghost p1 = self.frames();
                    let _ = self.remove_from_group_and_verify(bus, group_address, short_address);
                    proof {
                        lemma_repair_step(
                            old(self).frames(),
                            p1,
                            self.frames(),
                            bus,
                            bus_config.channels@,
                            i as int,
                        );
                        assert forall|k: int|
                            0 <= k < i + 1 implies crate::dali_manager::spec_frame_sent(
                            lo,
                            self.frames(),
                            crate::dali_manager::spec_command_short_frame(
                                bus,
                                crate::dali_commands::DALI_QUERY_GROUPS_0_7,
                                (#[trigger] bus_config.channels@[k]).short_address,
                                false,
                            ),
                        ) by {
                            crate::dali_manager::lemma_frame_sent_extend(
                                lo,
                                p1,
                                self.frames(),
                                crate::dali_manager::spec_command_short_frame(
                                    bus,
                                    crate::dali_commands::DALI_QUERY_GROUPS_0_7,
                                    bus_config.channels@[k].short_address,
                                    false,
                                ),
                            );
                        }
                    }
                }
                group_address += 1;
            }
            // Memberships the configuration lists but the device lacks:
            // add them.
            let group_count = bus_config.groups.len();
            let mut gi: usize = 0;
            while gi < group_count
                invariant
                    gi <= group_count,
                    group_count == bus_config.groups@.len(),
                    self.bus_count() == old(self).bus_count(),
                    crate::dali_manager::spec_appended_within(
                        old(self).frames(),
                        self.frames(),
                        allowed,
                    ),
                    forall|k: int|
                        0 <= k < i + 1 ==> crate::dali_manager::spec_frame_sent(
                            lo,
                            self.frames(),
                            crate::dali_manager::spec_command_short_frame(
                                bus,
                                crate::dali_commands::DALI_QUERY_GROUPS_0_7,
                                (#[trigger] bus_config.channels@[k]).short_address,
                                false,
                            ),
                        ),
                decreases group_count - gi,
            {
                let group = &bus_config.groups[gi];
                if vec_contains(&group.members, short_address) && !crate::dali_manager::group_mask_has(
                    group_mask,
                    group.group_address,
                ) {
                    let ghost p1 = self.frames();
                    let _ = self.add_to_group_and_verify(bus, group.group_address, short_address);
                    proof {
                        lemma_repair_step(
                            old(self).frames(),
                            p1,
                            self.frames(),
                            bus,
                            bus_config.channels@,
                            i as int,
                        );
                        assert forall|k: int|
                            0 <= k < i + 1 implies crate::dali_manager::spec_frame_sent(
                            lo,
                            self.frames(),
                            crate::dali_manager::spec_command_short_frame(
                                bus,
                                crate::dali_commands::DALI_QUERY_GROUPS_0_7,
                                (#[trigger] bus_config.channels@[k]).short_address,
                                false,
                            ),
                        ) by {
                            crate::dali_manager::lemma_frame_sent_extend(
                                lo,
                                p1,
                                self.frames(),
                                crate::dali_manager::spec_command_short_frame(
                                    bus,
                                    crate::dali_commands::DALI_QUERY_GROUPS_0_7,
                                    bus_config.channels@[k].short_address,
                                    false,
                                ),
                            );
                        }
                    }
                }
                gi += 1;
            }
            i += 1;
        }
    }
}

/// Frames addressed to the channel at index `i` lie within the repair
/// set, and composing extensions keeps the history within it.
proof fn lemma_repair_step(
    old_fs: Seq<DaliFrame>,
    mid_fs: Seq<DaliFrame>,
    new_fs: Seq<DaliFrame>,
    bus: usize,
    channels: Seq<crate::config_payload::Channel>,
    i: int,
)
    requires
        crate::dali_manager::spec_appended_within(
            old_fs,
            mid_fs,
            spec_repair_allowed(bus, channels),
        ),
        0 <= i < channels.len(),
        new_fs.len() >= mid_fs.len(),
        new_fs.subrange(0, mid_fs.len() as int) == mid_fs,
        forall|k: int|
            mid_fs.len() <= k < new_fs.len() ==> (#[trigger] new_fs[k]).bus == bus && new_fs[k].b1
                == crate::frames::spec_command_short_address(channels[i].short_address),
    ensures
        crate::dali_manager::spec_appended_within(
            old_fs,
            new_fs,
            spec_repair_allowed(bus, channels),
        ),
{
    let allowed = spec_repair_allowed(bus, channels);
    assert forall|k: int| mid_fs.len() <= k < new_fs.len() implies allowed.contains(
        #[trigger] new_fs[k],
    ) by {
        assert(new_fs[k].b1 == crate::frames::spec_command_short_address(channels[i].short_address));
    }
    crate::dali_manager::lemma_appended_within_step(old_fs, mid_fs, new_fs, allowed);
}

} // verus!
