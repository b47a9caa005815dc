//! Commissioning: binary search over the 24-bit random-address space
//! that discovers unaddressed devices one by one.  Each discovered
//! device takes 24 COMPARE cycles (23 search steps and one
//! confirmation), with at most one extra confirmation cycle; SEARCHADDR
//! bytes equal to the previously sent value for their slot are not
//! re-sent.

use vstd::prelude::*;

use crate::dali_commands;
use crate::dali_manager::{
    lemma_appended_within_refl, lemma_appended_within_step, lemma_appended_within_widen,
    lemma_command_code_bytes, lemma_push_appended, spec_appended_within, spec_broadcast_frame,
    DaliController, DaliManager, DaliManagerError,
};
use crate::frames::{DaliBusResult, DaliFrame};

verus! {

/// Which devices take part in a commissioning run.
#[derive(Debug, Clone, Copy, PartialEq, Eq, Structural)]
pub enum DaliDeviceSelection {
    /// Every device on the bus.
    All,
    /// Only devices without a short address.
    WithoutShortAddress,
    /// Only the device with this short address.
    Address(u8),
}

/// The commissioning cursor: yields one discovered device per call of
/// `find_next_device`.
pub struct DaliBusIterator {
    bus: usize,
    previous_low_byte: Option<u8>,
    previous_mid_byte: Option<u8>,
    previous_high_byte: Option<u8>,
    short_address: u8,
    terminate: bool,
    compare_cycles: u64,
}

/// The SEARCHADDR frames and the COMPARE frame the search may put on
/// the wire, and the TERMINATE frame that ends it.
pub open spec fn spec_search_allowed(bus: usize) -> Set<DaliFrame> {
    Set::new(
        |f: DaliFrame|
            {
                ||| (exists|v: u8|
                    f == spec_broadcast_frame(bus, dali_commands::DALI_SEARCHADDRL, v, false))
                ||| (exists|v: u8|
                    f == spec_broadcast_frame(bus, dali_commands::DALI_SEARCHADDRM, v, false))
                ||| (exists|v: u8|
                    f == spec_broadcast_frame(bus, dali_commands::DALI_SEARCHADDRH, v, false))
                ||| f == spec_broadcast_frame(bus, dali_commands::DALI_COMPARE, 0, false)
                ||| f == spec_broadcast_frame(bus, dali_commands::DALI_TERMINATE, 0, false)
            },
    )
}

/// The INITIALISE parameter a device selection encodes: everyone, only
/// the unaddressed, or one short address.
pub open spec fn spec_selection_parameter(selection: DaliDeviceSelection) -> u8 {
    match selection {
        DaliDeviceSelection::All => 0,
        DaliDeviceSelection::WithoutShortAddress => 0xff,
        DaliDeviceSelection::Address(a) => (2 * a + 1) as u8,
    }
}

impl DaliBusIterator {
    /// The bus this cursor commissions.
    pub closed spec fn spec_bus(&self) -> usize {
        self.bus
    }

    /// How many COMPARE cycles this cursor has run.  One cycle is one
    /// yes/no probe of the search address, including its retries.
    pub closed spec fn spec_compare_cycles(&self) -> u64 {
        self.compare_cycles
    }

    /// The cached SEARCHADDR bytes, low, mid, high.
    pub closed spec fn spec_previous_bytes(&self) -> (Option<u8>, Option<u8>, Option<u8>) {
        (self.previous_low_byte, self.previous_mid_byte, self.previous_high_byte)
    }

    /// Whether the next `find_next_device` ends the run.
    pub closed spec fn spec_terminate(&self) -> bool {
        self.terminate
    }

    /// How many devices this cursor has yielded: the short-address
    /// counter handed out by `find_next_device`, starting at 0.
    pub closed spec fn spec_yielded(&self) -> u8 {
        self.short_address
    }

    /// COMPARE cycles this cursor has run, for callers.
    pub fn compare_cycles(&self) -> (n: u64)
        ensures
            n == self.spec_compare_cycles(),
    {
        self.compare_cycles
    }

    /// Prepare a bus for commissioning: TERMINATE any previous run,
    /// INITIALISE the selected devices, and have them RANDOMISE.
    pub fn new<C: DaliController>(
        dali_manager: &mut DaliManager<C>,
        bus: usize,
        selection: DaliDeviceSelection,
    ) -> (r: Result<DaliBusIterator, DaliManagerError>)
        requires
            bus < old(dali_manager).bus_count(),
        ensures
            final(dali_manager).bus_count() == old(dali_manager).bus_count(),
            selection matches DaliDeviceSelection::Address(a) ==> (a >= 64 ==> r == Err::<
                DaliBusIterator,
                DaliManagerError,
            >(DaliManagerError::ShortAddress(a)) && final(dali_manager).frames() == old(
                dali_manager,
            ).frames()),
            r matches Ok(it) ==> it.spec_bus() == bus && it.spec_compare_cycles() == 0
                && !it.spec_terminate() && it.spec_yielded() == 0 && it.spec_previous_bytes() == (
                Option::<u8>::None,
                Option::<u8>::None,
                Option::<u8>::None,
            ),
            r is Ok ==> crate::dali_manager::spec_frames_ordered(
                old(dali_manager).frames().len() as int,
                final(dali_manager).frames(),
                spec_broadcast_frame(bus, dali_commands::DALI_TERMINATE, 0, true),
                spec_broadcast_frame(
                    bus,
                    dali_commands::DALI_INITIALISE,
                    spec_selection_parameter(selection),
                    true,
                ),
            ) && crate::dali_manager::spec_frames_ordered(
                old(dali_manager).frames().len() as int,
                final(dali_manager).frames(),
                spec_broadcast_frame(
                    bus,
                    dali_commands::DALI_INITIALISE,
                    spec_selection_parameter(selection),
                    true,
                ),
                spec_broadcast_frame(bus, dali_commands::DALI_RANDOMISE, 0, true),
            ),
    {
        let parameter: u8 = match selection {
            DaliDeviceSelection::All => 0,
            DaliDeviceSelection::WithoutShortAddress => 0xff,
            DaliDeviceSelection::Address(a) => {
                if a >= 64 {
                    return Err(DaliManagerError::ShortAddress(a));
                }
                2 * a + 1
            },
        };
        let ghost lo = old(dali_manager).frames().len() as int;
        let ghost term_f = spec_broadcast_frame(bus, dali_commands::DALI_TERMINATE, 0, true);
        let ghost init_f = spec_broadcast_frame(bus, dali_commands::DALI_INITIALISE, parameter, true);
        let ghost rand_f = spec_broadcast_frame(bus, dali_commands::DALI_RANDOMISE, 0, true);
        if let Err(e) = dali_manager.broadcast_command(
            bus,
            dali_commands::DALI_TERMINATE,
            0,
            true,
        ) {
            return Err(e);
        }
        let ghost q1 = dali_manager.frames();
        proof {
            assert(q1[lo] == term_f);
        }
        if let Err(e) = dali_manager.broadcast_command(
            bus,
            dali_commands::DALI_INITIALISE,
            parameter,
            true,
        ) {
            return Err(e);
        }
        let ghost q2 = dali_manager.frames();
        proof {
            assert(q2.subrange(0, q1.len() as int) =~= q1);
            assert(q2[lo] == term_f);
            assert(q2[q1.len() as int] == init_f);
            assert(crate::dali_manager::spec_frames_ordered(lo, q2, term_f, init_f));
        }
        if let Err(e) = dali_manager.broadcast_command(
            bus,
            dali_commands::DALI_RANDOMISE,
            0,
            true,
        ) {
            return Err(e);
        }
        proof {
            crate::dali_manager::lemma_frames_ordered_extend(
                lo,
                q2,
                dali_manager.frames(),
                term_f,
                init_f,
            );
            assert(dali_manager.frames().subrange(0, q2.len() as int) =~= q2);
            assert(dali_manager.frames()[q1.len() as int] == init_f);
            assert(dali_manager.frames()[q2.len() as int] == rand_f);
            assert(crate::dali_manager::spec_frames_ordered(
                lo,
                dali_manager.frames(),
                init_f,
                rand_f,
            ));
        }
        Ok(
            DaliBusIterator {
                bus,
                previous_low_byte: None,
                previous_mid_byte: None,
                previous_high_byte: None,
                short_address: 0,
                terminate: false,
                compare_cycles: 0,
            },
        )
    }

    /// End the run at the next `find_next_device` call.
    pub fn terminate(&mut self)
        ensures
            final(self).spec_terminate(),
            final(self).spec_bus() == old(self).spec_bus(),
            final(self).spec_compare_cycles() == old(self).spec_compare_cycles(),
            final(self).spec_yielded() == old(self).spec_yielded(),
    {
        self.terminate = true;
    }

    /// Send the three SEARCHADDR bytes of `search_address`, skipping
    /// every byte equal to the previously sent value for its slot: such
    /// a byte is not re-sent.
    #[verifier::loop_isolation(false)]
    pub fn send_search_address<C: DaliController>(
        &mut self,
        dali_manager: &mut DaliManager<C>,
        search_address: u32,
    ) -> (r: Result<DaliBusResult, DaliManagerError>)
        requires
            search_address <= 0x1000000,
            old(self).spec_bus() < old(dali_manager).bus_count(),
        ensures
            final(dali_manager).bus_count() == old(dali_manager).bus_count(),
            final(self).spec_bus() == old(self).spec_bus(),
            final(self).spec_terminate() == old(self).spec_terminate(),
            final(self).spec_compare_cycles() == old(self).spec_compare_cycles(),
            final(self).spec_yielded() == old(self).spec_yielded(),
            final(self).spec_previous_bytes() == (
                Some((search_address & 0xff) as u8),
                Some(((search_address >> 8) & 0xff) as u8),
                Some(((search_address >> 16) & 0xff) as u8),
            ),
            spec_appended_within(
                old(dali_manager).frames(),
                final(dali_manager).frames(),
                spec_search_allowed(old(self).spec_bus()),
            ),
            old(self).spec_previous_bytes().0 == Some((search_address & 0xff) as u8)
                ==> forall|k: int|
                old(dali_manager).frames().len() <= k < final(dali_manager).frames().len()
                    ==> (#[trigger] final(dali_manager).frames()[k]).b1 != 0xb5,
            old(self).spec_previous_bytes().1 == Some(((search_address >> 8) & 0xff) as u8)
                ==> forall|k: int|
                old(dali_manager).frames().len() <= k < final(dali_manager).frames().len()
                    ==> (#[trigger] final(dali_manager).frames()[k]).b1 != 0xb3,
            old(self).spec_previous_bytes().2 == Some(((search_address >> 16) & 0xff) as u8)
                ==> forall|k: int|
                old(dali_manager).frames().len() <= k < final(dali_manager).frames().len()
                    ==> (#[trigger] final(dali_manager).frames()[k]).b1 != 0xb1,
            forall|k: int|
                old(dali_manager).frames().len() <= k < final(dali_manager).frames().len() ==> (
                #[trigger] final(dali_manager).frames()[k]).b1 == 0xb5 || final(dali_manager).frames()[k].b1 == 0xb3 || final(dali_manager).frames()[k].b1 == 0xb1,
            r is Ok ==> r == Ok::<DaliBusResult, DaliManagerError>(DaliBusResult::NoReply),
            r is Ok && old(self).spec_previous_bytes().0 != Some((search_address & 0xff) as u8)
                ==> crate::dali_manager::spec_frame_sent(
                old(dali_manager).frames().len() as int,
                final(dali_manager).frames(),
                spec_broadcast_frame(
                    old(self).spec_bus(),
                    dali_commands::DALI_SEARCHADDRL,
                    (search_address & 0xff) as u8,
                    false,
                ),
            ),
            r is Ok && old(self).spec_previous_bytes().1 != Some(
                ((search_address >> 8) & 0xff) as u8,
            ) ==> crate::dali_manager::spec_frame_sent(
                old(dali_manager).frames().len() as int,
                final(dali_manager).frames(),
                spec_broadcast_frame(
                    old(self).spec_bus(),
                    dali_commands::DALI_SEARCHADDRM,
                    ((search_address >> 8) & 0xff) as u8,
                    false,
                ),
            ),
            r is Ok && old(self).spec_previous_bytes().2 != Some(
                ((search_address >> 16) & 0xff) as u8,
            ) ==> crate::dali_manager::spec_frame_sent(
                old(dali_manager).frames().len() as int,
                final(dali_manager).frames(),
                spec_broadcast_frame(
                    old(self).spec_bus(),
                    dali_commands::DALI_SEARCHADDRH,
                    ((search_address >> 16) & 0xff) as u8,
                    false,
                ),
            ),
    {
        proof {
            lemma_command_code_bytes();
        }
        let low_byte = (search_address & 0xff) as u8;
        let mid_byte = ((search_address >> 8) & 0xff) as u8;
        let high_byte = ((search_address >> 16) & 0xff) as u8;
        let send_low = self.previous_low_byte != Some(low_byte);
        let send_mid = self.previous_mid_byte != Some(mid_byte);
        let send_high = self.previous_high_byte != Some(high_byte);
        self.previous_low_byte = Some(low_byte);
        self.previous_mid_byte = Some(mid_byte);
        self.previous_high_byte = Some(high_byte);
        let ghost low_f = spec_broadcast_frame(
            self.bus,
            dali_commands::DALI_SEARCHADDRL,
            low_byte,
            false,
        );
        let ghost mid_f = spec_broadcast_frame(
            self.bus,
            dali_commands::DALI_SEARCHADDRM,
            mid_byte,
            false,
        );
        let ghost high_f = spec_broadcast_frame(
            self.bus,
            dali_commands::DALI_SEARCHADDRH,
            high_byte,
            false,
        );
        let ghost allowed = Set::new(
            |f: DaliFrame|
                (send_low && f == low_f) || (send_mid && f == mid_f) || (send_high && f
                    == high_f),
        );
        proof {
            lemma_appended_within_refl(dali_manager.frames(), allowed);
        }
        if send_low {
            let ghost p = dali_manager.frames();
            let sent = dali_manager.broadcast_command(
                self.bus,
                dali_commands::DALI_SEARCHADDRL,
                low_byte,
                false,
            );
            proof {
                lemma_appended_within_widen(
                    p,
                    dali_manager.frames(),
                    Set::empty().insert(low_f),
                    allowed,
                );
                lemma_appended_within_step(
                    old(dali_manager).frames(),
                    p,
                    dali_manager.frames(),
                    allowed,
                );
                assert(dali_manager.frames()[p.len() as int] == low_f);
                assert(crate::dali_manager::spec_frame_sent(
                    old(dali_manager).frames().len() as int,
                    dali_manager.frames(),
                    low_f,
                ));
            }
            if let Err(e) = sent {
                proof {
                lemma_search_slot_frames(
                    old(dali_manager).frames(),
                    dali_manager.frames(),
                    self.bus,
                    send_low,
                    send_mid,
                    send_high,
                    low_byte,
                    mid_byte,
                    high_byte,
                );
            }
            return Err(e);
            }
        }
        if send_mid {
            let ghost p = dali_manager.frames();
            let sent = dali_manager.broadcast_command(
                self.bus,
                dali_commands::DALI_SEARCHADDRM,
                mid_byte,
                false,
            );
            proof {
                lemma_appended_within_widen(
                    p,
                    dali_manager.frames(),
                    Set::empty().insert(mid_f),
                    allowed,
                );
                lemma_appended_within_step(
                    old(dali_manager).frames(),
                    p,
                    dali_manager.frames(),
                    allowed,
                );
                assert(dali_manager.frames()[p.len() as int] == mid_f);
                assert(crate::dali_manager::spec_frame_sent(
                    old(dali_manager).frames().len() as int,
                    dali_manager.frames(),
                    mid_f,
                ));
                if send_low {
                    crate::dali_manager::lemma_frame_sent_extend(
                        old(dali_manager).frames().len() as int,
                        p,
                        dali_manager.frames(),
                        low_f,
                    );
                }
            }
            if let Err(e) = sent {
                proof {
                lemma_search_slot_frames(
                    old(dali_manager).frames(),
                    dali_manager.frames(),
                    self.bus,
                    send_low,
                    send_mid,
                    send_high,
                    low_byte,
                    mid_byte,
                    high_byte,
                );
            }
            return Err(e);
            }
        }
        if send_high {
            let ghost p = dali_manager.frames();
            let sent = dali_manager.broadcast_command(
                self.bus,
                dali_commands::DALI_SEARCHADDRH,
                high_byte,
                false,
            );
            proof {
                lemma_appended_within_widen(
                    p,
                    dali_manager.frames(),
                    Set::empty().insert(high_f),
                    allowed,
                );
                lemma_appended_within_step(
                    old(dali_manager).frames(),
                    p,
                    dali_manager.frames(),
                    allowed,
                );
                assert(dali_manager.frames()[p.len() as int] == high_f);
                assert(crate::dali_manager::spec_frame_sent(
                    old(dali_manager).frames().len() as int,
                    dali_manager.frames(),
                    high_f,
                ));
                if send_low {
                    crate::dali_manager::lemma_frame_sent_extend(
                        old(dali_manager).frames().len() as int,
                        p,
                        dali_manager.frames(),
                        low_f,
                    );
                }
                if send_mid {
                    crate::dali_manager::lemma_frame_sent_extend(
                        old(dali_manager).frames().len() as int,
                        p,
                        dali_manager.frames(),
                        mid_f,
                    );
                }
            }
            if let Err(e) = sent {
                proof {
                lemma_search_slot_frames(
                    old(dali_manager).frames(),
                    dali_manager.frames(),
                    self.bus,
                    send_low,
                    send_mid,
                    send_high,
                    low_byte,
                    mid_byte,
                    high_byte,
                );
            }
            return Err(e);
            }
        }
        proof {
            lemma_search_slot_frames(
                old(dali_manager).frames(),
                dali_manager.frames(),
                self.bus,
                send_low,
                send_mid,
                send_high,
                low_byte,
                mid_byte,
                high_byte,
            );
        }
        Ok(DaliBusResult::NoReply)
    }

    /// One COMPARE cycle: ask whether some participating device's
    /// random address is at most the search address.  No answer is
    /// retried `retry` times before counting as `false`; a value or a
    /// collision means at least one device answered yes.
    #[verifier::loop_isolation(false)]
    fn is_random_address_le<C: DaliController>(
        &mut self,
        dali_manager: &mut DaliManager<C>,
        retry: u8,
    ) -> (r: Result<bool, DaliManagerError>)
        requires
            old(self).spec_bus() < old(dali_manager).bus_count(),
            old(self).spec_compare_cycles() < u64::MAX,
        ensures
            final(dali_manager).bus_count() == old(dali_manager).bus_count(),
            *final(self) == (DaliBusIterator {
                compare_cycles: final(self).compare_cycles,
                ..*old(self)
            }),
            final(self).spec_compare_cycles() == old(self).spec_compare_cycles() + 1,
            crate::dali_manager::spec_appended_only(
                old(dali_manager).frames(),
                final(dali_manager).frames(),
                spec_broadcast_frame(old(self).spec_bus(), dali_commands::DALI_COMPARE, 0, false),
            ),
            1 <= final(dali_manager).frames().len() - old(dali_manager).frames().len() <= retry
                + 1,
    {
        proof {
            lemma_command_code_bytes();
        }
        let ghost compare_f = spec_broadcast_frame(
            self.bus,
            dali_commands::DALI_COMPARE,
            0,
            false,
        );
        self.compare_cycles = self.compare_cycles + 1;
        let mut tries_left = retry;
        proof {
            lemma_appended_within_refl(
                dali_manager.frames(),
                Set::empty().insert(compare_f),
            );
        }
        loop
            invariant
                tries_left <= retry,
                crate::dali_manager::spec_appended_only(
                    old(dali_manager).frames(),
                    dali_manager.frames(),
                    compare_f,
                ),
                dali_manager.frames().len() - old(dali_manager).frames().len() == retry
                    - tries_left,
                dali_manager.bus_count() == old(dali_manager).bus_count(),
                *self == (DaliBusIterator { compare_cycles: self.compare_cycles, ..*old(self) }),
                self.compare_cycles == old(self).compare_cycles + 1,
            decreases tries_left,
        {
            let ghost p = dali_manager.frames();
            let sent = dali_manager.broadcast_command_allow_collision(
                self.bus,
                dali_commands::DALI_COMPARE,
                0,
                false,
            );
            proof {
                lemma_push_appended(p, dali_manager.frames(), compare_f);
                lemma_appended_within_step(
                    old(dali_manager).frames(),
                    p,
                    dali_manager.frames(),
                    Set::empty().insert(compare_f),
                );
            }
            match sent {
                Ok(DaliBusResult::NoReply) => {
                    if tries_left == 0 {
                        return Ok(false);
                    }
                    tries_left -= 1;
                },
                Ok(_) => {
                    return Ok(true);
                },
                Err(e) => {
                    return Err(e);
                },
            }
        }
    }

    /// Find the next participating device by binary search over the
    /// 24-bit random-address space.  A successful search runs exactly 24
    /// COMPARE cycles, plus one more when the first confirmation fails;
    /// it yields the next free short address, or `None` when no device
    /// is left (or the cursor was told to terminate).
    #[verifier::loop_isolation(false)]
    pub fn find_next_device<C: DaliController>(&mut self, dali_manager: &mut DaliManager<C>) -> (r:
        Result<Option<u8>, DaliManagerError>)
        requires
            old(self).spec_bus() < old(dali_manager).bus_count(),
            old(self).spec_compare_cycles() + 25 <= u64::MAX,
        ensures
            final(dali_manager).bus_count() == old(dali_manager).bus_count(),
            final(self).spec_bus() == old(self).spec_bus(),
            spec_appended_within(
                old(dali_manager).frames(),
                final(dali_manager).frames(),
                spec_search_allowed(old(self).spec_bus()),
            ),
            old(self).spec_terminate() ==> final(self).spec_compare_cycles() == old(
                self,
            ).spec_compare_cycles() && (r is Ok ==> r == Ok::<Option<u8>, DaliManagerError>(
                Option::<u8>::None,
            )) && crate::dali_manager::spec_appended_only(
                old(dali_manager).frames(),
                final(dali_manager).frames(),
                spec_broadcast_frame(old(self).spec_bus(), dali_commands::DALI_TERMINATE, 0, false),
            ),
            !old(self).spec_terminate() && r is Ok ==> final(self).spec_compare_cycles() == old(
                self,
            ).spec_compare_cycles() + 24 || final(self).spec_compare_cycles() == old(
                self,
            ).spec_compare_cycles() + 25,
            !old(self).spec_terminate() && r is Ok ==> final(self).spec_compare_cycles() - old(
                self,
            ).spec_compare_cycles() <= crate::dali_manager::spec_count_from(
                final(dali_manager).frames(),
                old(dali_manager).frames().len() as int,
                spec_broadcast_frame(old(self).spec_bus(), dali_commands::DALI_COMPARE, 0, false),
            ) <= 3 * (final(self).spec_compare_cycles() - old(self).spec_compare_cycles()),
            r matches Ok(Some(a)) ==> !old(self).spec_terminate() && a == old(self).spec_yielded()
                && final(self).spec_yielded() == (if a < 255 {
                (a + 1) as u8
            } else {
                a
            }),
            r == Ok::<Option<u8>, DaliManagerError>(None) ==> crate::dali_manager::spec_frame_sent(
                old(dali_manager).frames().len() as int,
                final(dali_manager).frames(),
                spec_broadcast_frame(old(self).spec_bus(), dali_commands::DALI_TERMINATE, 0, false),
            ),
    {
        proof {
            lemma_command_code_bytes();
        }
        let bus = self.bus;
        let ghost allowed = spec_search_allowed(bus);
        let ghost lo = old(dali_manager).frames().len() as int;
        let ghost compare_f = spec_broadcast_frame(bus, dali_commands::DALI_COMPARE, 0, false);
        let ghost term1_f = spec_broadcast_frame(bus, dali_commands::DALI_TERMINATE, 0, false);
        proof {
            lemma_appended_within_refl(dali_manager.frames(), allowed);
        }
        if self.terminate {
            let ghost p = dali_manager.frames();
            let sent = dali_manager.broadcast_command(bus, dali_commands::DALI_TERMINATE, 0, false);
            proof {
                lemma_appended_within_widen(
                    p,
                    dali_manager.frames(),
                    Set::empty().insert(term1_f),
                    allowed,
                );
                assert(dali_manager.frames()[lo] == term1_f);
                assert(crate::dali_manager::spec_frame_sent(
                    lo,
                    dali_manager.frames(),
                    term1_f,
                ));
            }
            return match sent {
                Ok(_) => Ok(None),
                Err(e) => Err(e),
            };
        }
        proof {
            assert(crate::dali_manager::spec_count_from(dali_manager.frames(), lo, compare_f)
                == 0);
        }
        let mut search_address: u32 = 0x00800000;
        let mut step: u32 = 0;
        proof {
            assert(0x400000u32 >> 0 == 0x400000) by (bit_vector);
        }
        while step < 23
            invariant
                step <= 23,
                search_address >= 2 * (0x400000u32 >> step) - 1,
                search_address + 2 * (0x400000u32 >> step) <= 0x1000000,
                search_address <= 0xffffff,
                self.spec_bus() == old(self).spec_bus(),
                self.spec_bus() == bus,
                !self.spec_terminate(),
                self.spec_compare_cycles() == old(self).spec_compare_cycles() + step,
                self.spec_yielded() == old(self).spec_yielded(),
                dali_manager.bus_count() == old(dali_manager).bus_count(),
                spec_appended_within(
                    old(dali_manager).frames(),
                    dali_manager.frames(),
                    allowed,
                ),
                step <= crate::dali_manager::spec_count_from(
                    dali_manager.frames(),
                    lo,
                    compare_f,
                ) <= 3 * step,
            decreases 23 - step,
        {
            let delta = 0x400000u32 >> step;
            proof {
                assert(step < 23 ==> (0x400000u32 >> step) >= 1 && (0x400000u32 >> step)
                    <= 0x400000) by (bit_vector);
            }
            let ghost p0 = dali_manager.frames();
            let sent = self.send_search_address(dali_manager, search_address);
            proof {
                lemma_appended_within_step(
                    old(dali_manager).frames(),
                    p0,
                    dali_manager.frames(),
                    allowed,
                );
                lemma_no_compare_in_search(p0, dali_manager.frames(), lo, compare_f);
            }
            if let Err(e) = sent {
                return Err(e);
            }
            let ghost p1 = dali_manager.frames();
            let answer = self.is_random_address_le(dali_manager, 2);
            proof {
                lemma_appended_within_step(
                    old(dali_manager).frames(),
                    p1,
                    dali_manager.frames(),
                    allowed,
                );
                crate::dali_manager::lemma_count_from_extend_only(
                    p1,
                    dali_manager.frames(),
                    lo,
                    compare_f,
                    compare_f,
                );
            }
            let random_address_le = match answer {
                Ok(b) => b,
                Err(e) => {
                    return Err(e);
                },
            };
            if random_address_le {
                search_address -= delta;
            } else {
                search_address += delta;
            }
            proof {
                assert(step < 23 ==> (0x400000u32 >> (step + 1)) == (0x400000u32 >> step)
                    / 2) by (bit_vector);
            }
            step += 1;
        }
        let ghost p2 = dali_manager.frames();
        let sent = self.send_search_address(dali_manager, search_address);
        proof {
            lemma_appended_within_step(
                old(dali_manager).frames(),
                p2,
                dali_manager.frames(),
                allowed,
            );
            lemma_no_compare_in_search(p2, dali_manager.frames(), lo, compare_f);
        }
        if let Err(e) = sent {
            return Err(e);
        }
        let ghost p3 = dali_manager.frames();
        let confirmed = self.is_random_address_le(dali_manager, 2);
        proof {
            lemma_appended_within_step(
                old(dali_manager).frames(),
                p3,
                dali_manager.frames(),
                allowed,
            );
            crate::dali_manager::lemma_count_from_extend_only(
                p3,
                dali_manager.frames(),
                lo,
                compare_f,
                compare_f,
            );
        }
        let confirmed = match confirmed {
            Ok(b) => b,
            Err(e) => {
                return Err(e);
            },
        };
        if !confirmed {
            search_address += 1;
            let ghost p4 = dali_manager.frames();
            let sent = self.send_search_address(dali_manager, search_address);
            proof {
                lemma_appended_within_step(
                    old(dali_manager).frames(),
                    p4,
                    dali_manager.frames(),
                    allowed,
                );
                lemma_no_compare_in_search(p4, dali_manager.frames(), lo, compare_f);
            }
            if let Err(e) = sent {
                return Err(e);
            }
            let ghost p5 = dali_manager.frames();
            let again = self.is_random_address_le(dali_manager, 2);
            proof {
                lemma_appended_within_step(
                    old(dali_manager).frames(),
                    p5,
                    dali_manager.frames(),
                    allowed,
                );
                crate::dali_manager::lemma_count_from_extend_only(
                    p5,
                    dali_manager.frames(),
                    lo,
                    compare_f,
                    compare_f,
                );
            }
            if let Err(e) = again {
                return Err(e);
            }
        }
        if search_address > 0xffffff {
            let ghost p6 = dali_manager.frames();
            let sent = dali_manager.broadcast_command(bus, dali_commands::DALI_TERMINATE, 0, false);
            proof {
                lemma_appended_within_widen(
                    p6,
                    dali_manager.frames(),
                    Set::empty().insert(term1_f),
                    allowed,
                );
                lemma_appended_within_step(
                    old(dali_manager).frames(),
                    p6,
                    dali_manager.frames(),
                    allowed,
                );
                assert(dali_manager.frames()[p6.len() as int] == term1_f);
                assert(crate::dali_manager::spec_frame_sent(
                    lo,
                    dali_manager.frames(),
                    term1_f,
                ));
                assert(term1_f != compare_f);
                assert forall|k: int|
                    p6.len() <= k < dali_manager.frames().len() implies #[trigger] dali_manager.frames()[k]
                    != compare_f by {
                    assert(dali_manager.frames()[k] == term1_f);
                }
                crate::dali_manager::lemma_count_from_extend_none(
                    p6,
                    dali_manager.frames(),
                    lo,
                    compare_f,
                );
            }
            return match sent {
                Ok(_) => Ok(None),
                Err(e) => Err(e),
            };
        }
        let short_address = self.short_address;
        if self.short_address < 255 {
            self.short_address += 1;
        }
        Ok(Some(short_address))
    }
}

/// A search-address segment contains no COMPARE frame: its frames all
/// carry SEARCHADDR first bytes.
proof fn lemma_no_compare_in_search(
    p: Seq<DaliFrame>,
    c: Seq<DaliFrame>,
    lo: int,
    compare_f: DaliFrame,
)
    requires
        0 <= lo <= p.len(),
        c.len() >= p.len(),
        c.subrange(0, p.len() as int) == p,
        forall|k: int|
            p.len() <= k < c.len() ==> (#[trigger] c[k]).b1 == 0xb5 || c[k].b1 == 0xb3 || c[k].b1
                == 0xb1,
        compare_f.b1 == 0xa9,
    ensures
        crate::dali_manager::spec_count_from(c, lo, compare_f) == crate::dali_manager::spec_count_from(
            p,
            lo,
            compare_f,
        ),
{
    assert forall|k: int| p.len() <= k < c.len() implies #[trigger] c[k] != compare_f by {
        assert(c[k].b1 != 0xa9);
    }
    crate::dali_manager::lemma_count_from_extend_none(p, c, lo, compare_f);
}

/// The frames a single search-address update may send lie within the
/// commissioning frame set, and never name a slot that was not sent.
proof fn lemma_search_slot_frames(
    old_fs: Seq<DaliFrame>,
    new_fs: Seq<DaliFrame>,
    bus: usize,
    send_low: bool,
    send_mid: bool,
    send_high: bool,
    low_byte: u8,
    mid_byte: u8,
    high_byte: u8,
)
    requires
        spec_appended_within(
            old_fs,
            new_fs,
            Set::new(
                |f: DaliFrame|
                    (send_low && f == spec_broadcast_frame(
                        bus,
                        dali_commands::DALI_SEARCHADDRL,
                        low_byte,
                        false,
                    )) || (send_mid && f == spec_broadcast_frame(
                        bus,
                        dali_commands::DALI_SEARCHADDRM,
                        mid_byte,
                        false,
                    )) || (send_high && f == spec_broadcast_frame(
                        bus,
                        dali_commands::DALI_SEARCHADDRH,
                        high_byte,
                        false,
                    )),
            ),
        ),
    ensures
        spec_appended_within(old_fs, new_fs, spec_search_allowed(bus)),
        forall|k: int|
            old_fs.len() <= k < new_fs.len() ==> (#[trigger] new_fs[k]).b1 == 0xb5 || new_fs[k].b1
                == 0xb3 || new_fs[k].b1 == 0xb1,
        !send_low ==> forall|k: int|
            old_fs.len() <= k < new_fs.len() ==> (#[trigger] new_fs[k]).b1 != 0xb5,
        !send_mid ==> forall|k: int|
            old_fs.len() <= k < new_fs.len() ==> (#[trigger] new_fs[k]).b1 != 0xb3,
        !send_high ==> forall|k: int|
            old_fs.len() <= k < new_fs.len() ==> (#[trigger] new_fs[k]).b1 != 0xb1,
{
    lemma_command_code_bytes();
    let small = Set::new(
        |f: DaliFrame|
            (send_low && f == spec_broadcast_frame(
                bus,
                dali_commands::DALI_SEARCHADDRL,
                low_byte,
                false,
            )) || (send_mid && f == spec_broadcast_frame(
                bus,
                dali_commands::DALI_SEARCHADDRM,
                mid_byte,
                false,
            )) || (send_high && f == spec_broadcast_frame(
                bus,
                dali_commands::DALI_SEARCHADDRH,
                high_byte,
                false,
            )),
    );
    assert forall|f: DaliFrame| small.contains(f) implies spec_search_allowed(bus).contains(
        f,
    ) by {
        if send_low && f == spec_broadcast_frame(
            bus,
            dali_commands::DALI_SEARCHADDRL,
            low_byte,
            false,
        ) {
            assert(exists|v: u8|
                f == spec_broadcast_frame(bus, dali_commands::DALI_SEARCHADDRL, v, false)) by {
                assert(f == spec_broadcast_frame(
                    bus,
                    dali_commands::DALI_SEARCHADDRL,
                    low_byte,
                    false,
                ));
            }
        } else if send_mid && f == spec_broadcast_frame(
            bus,
            dali_commands::DALI_SEARCHADDRM,
            mid_byte,
            false,
        ) {
            assert(exists|v: u8|
                f == spec_broadcast_frame(bus, dali_commands::DALI_SEARCHADDRM, v, false)) by {
                assert(f == spec_broadcast_frame(
                    bus,
                    dali_commands::DALI_SEARCHADDRM,
                    mid_byte,
                    false,
                ));
            }
        } else {
            assert(exists|v: u8|
                f == spec_broadcast_frame(bus, dali_commands::DALI_SEARCHADDRH, v, false)) by {
                assert(f == spec_broadcast_frame(
                    bus,
                    dali_commands::DALI_SEARCHADDRH,
                    high_byte,
                    false,
                ));
            }
        }
    }
    lemma_appended_within_widen(old_fs, new_fs, small, spec_search_allowed(bus));
}

} // verus!
