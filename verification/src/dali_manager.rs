//! The DALI protocol layer: typed operations over an abstract bus
//! transport.  Contracts are stated against the transport's frame
//! history: every operation says exactly which forward frames it puts on
//! the wire and how it validates its arguments before any bus traffic.

use vstd::prelude::*;

use crate::command_payload::LightStatus;
use crate::config_payload::{
    lemma_channels_ok_remove, lemma_groups_ok_maybe_removed, spec_members_maybe_removed,
    BusConfig, BusStatus, Channel,
};
use crate::dali_commands;
use crate::text;
use crate::frames::{
    spec_broadcast_b1, spec_broadcast_b2, spec_command_group_address, spec_command_short_address,
    spec_is_collision, spec_light_group_address, spec_light_short_address, broadcast_frame_bytes,
    is_collision, to_command_group_address, to_command_short_address, to_light_group_address,
    to_light_short_address, DaliBusResult, DaliFrame,
};

verus! {

/// Failures of the protocol layer.
#[derive(Debug, Clone, Copy, PartialEq, Eq, Structural)]
pub enum DaliManagerError {
    /// A short address is not in `[0, 63]`.
    ShortAddress(u8),
    /// A group address is not in `[0, 15]`.
    GroupAddress(u8),
    /// A command code is out of range for an addressed command.
    Command(u16),
    /// A fade time is not in `[0, 15]`.
    FadeTime(u8),
    /// A transaction returned a reply of an unexpected shape.
    UnexpectedStatus(DaliBusResult),
    /// A group-match pattern does not compile.
    Pattern,
    /// Adding a light to a group could not be verified.
    GroupAddFailed(u8, u8),
    /// Removing a light from a group could not be verified.
    GroupRemoveFailed(u8, u8),
    /// A value-expecting query got no value.
    NoResult,
    /// The transport failed underneath the protocol.
    Transport,
}

/// A bus transport: sends 16-bit forward frames and reports bus health.
/// The `frames` history records every send, in order; implementations
/// append exactly the frame they were handed, whatever the outcome.
pub trait DaliController: Sized {
    /// All frames sent through this transport so far.
    spec fn frames(&self) -> Seq<DaliFrame>;

    /// How many buses the transport drives.
    spec fn bus_count(&self) -> nat;

    /// Send one frame once.
    fn send_2_bytes(&mut self, bus: usize, b1: u8, b2: u8) -> (r: Result<
        DaliBusResult,
        DaliManagerError,
    >)
        requires
            bus < old(self).bus_count(),
        ensures
            final(self).bus_count() == old(self).bus_count(),
            final(self).frames() == old(self).frames().push(
                (DaliFrame { bus, b1, b2, twice: false }),
            ),
    ;

    /// Send one frame twice within 100 ms, as DALI configuration
    /// commands require.
    fn send_2_bytes_repeat(&mut self, bus: usize, b1: u8, b2: u8) -> (r: Result<
        DaliBusResult,
        DaliManagerError,
    >)
        requires
            bus < old(self).bus_count(),
        ensures
            final(self).bus_count() == old(self).bus_count(),
            final(self).frames() == old(self).frames().push(
                (DaliFrame { bus, b1, b2, twice: true }),
            ),
    ;

    /// Current health of one bus; sends no forward frame.
    fn get_bus_status(&mut self, bus: usize) -> (r: Result<BusStatus, DaliManagerError>)
        requires
            bus < old(self).bus_count(),
        ensures
            final(self).bus_count() == old(self).bus_count(),
            final(self).frames() == old(self).frames(),
    ;
}

/// The level frame setting one light's brightness.
pub open spec fn spec_level_short_frame(bus: usize, short_address: u8, level: u8) -> DaliFrame {
    DaliFrame { bus, b1: spec_light_short_address(short_address), b2: level, twice: false }
}

/// The level frame setting a group's brightness.
pub open spec fn spec_level_group_frame(bus: usize, group: u8, level: u8) -> DaliFrame {
    DaliFrame { bus, b1: spec_light_group_address(group), b2: level, twice: false }
}

/// The command frame for `command` addressed to one light.
pub open spec fn spec_command_short_frame(
    bus: usize,
    command: u16,
    short_address: u8,
    twice: bool,
) -> DaliFrame {
    DaliFrame {
        bus,
        b1: spec_command_short_address(short_address),
        b2: (command & 0xff) as u8,
        twice,
    }
}

/// The command frame for `command` addressed to a group.
pub open spec fn spec_command_group_frame(
    bus: usize,
    command: u16,
    group: u8,
    twice: bool,
) -> DaliFrame {
    DaliFrame { bus, b1: spec_command_group_address(group), b2: (command & 0xff) as u8, twice }
}

/// The broadcast frame for `command` with `parameter`.
pub open spec fn spec_broadcast_frame(
    bus: usize,
    command: u16,
    parameter: u8,
    twice: bool,
) -> DaliFrame {
    DaliFrame {
        bus,
        b1: spec_broadcast_b1(command),
        b2: spec_broadcast_b2(command, parameter),
        twice,
    }
}

/// `new_fs` extends `old_fs`, and every appended frame lies in the set
/// `allowed`.
pub open spec fn spec_appended_within(
    old_fs: Seq<DaliFrame>,
    new_fs: Seq<DaliFrame>,
    allowed: Set<DaliFrame>,
) -> bool {
    &&& new_fs.len() >= old_fs.len()
    &&& new_fs.subrange(0, old_fs.len() as int) == old_fs
    &&& forall|k: int| old_fs.len() <= k < new_fs.len() ==> allowed.contains(#[trigger] new_fs[k])
}

/// The frame `f` stands somewhere in `fs` at or after position
/// `fs_old_len`: it was sent in the extension that starts there.
pub open spec fn spec_frame_sent(fs_old_len: int, fs: Seq<DaliFrame>, f: DaliFrame) -> bool {
    exists|i: int| fs_old_len <= i < fs.len() && fs[i] == f
}

/// `f1` stands before `f2` in the extension of `fs` starting at
/// `fs_old_len`.
pub open spec fn spec_frames_ordered(
    fs_old_len: int,
    fs: Seq<DaliFrame>,
    f1: DaliFrame,
    f2: DaliFrame,
) -> bool {
    exists|i: int, j: int| fs_old_len <= i < j < fs.len() && fs[i] == f1 && fs[j] == f2
}

/// A sent frame stays sent when the history grows.
pub proof fn lemma_frame_sent_extend(
    fs_old_len: int,
    mid_fs: Seq<DaliFrame>,
    new_fs: Seq<DaliFrame>,
    f: DaliFrame,
)
    requires
        0 <= fs_old_len,
        spec_frame_sent(fs_old_len, mid_fs, f),
        new_fs.len() >= mid_fs.len(),
        new_fs.subrange(0, mid_fs.len() as int) == mid_fs,
    ensures
        spec_frame_sent(fs_old_len, new_fs, f),
{
    let i = choose|i: int| fs_old_len <= i < mid_fs.len() && mid_fs[i] == f;
    assert(new_fs.subrange(0, mid_fs.len() as int)[i] == new_fs[i]);
}

/// An ordered pair of sent frames stays ordered when the history grows.
pub proof fn lemma_frames_ordered_extend(
    fs_old_len: int,
    mid_fs: Seq<DaliFrame>,
    new_fs: Seq<DaliFrame>,
    f1: DaliFrame,
    f2: DaliFrame,
)
    requires
        0 <= fs_old_len,
        spec_frames_ordered(fs_old_len, mid_fs, f1, f2),
        new_fs.len() >= mid_fs.len(),
        new_fs.subrange(0, mid_fs.len() as int) == mid_fs,
    ensures
        spec_frames_ordered(fs_old_len, new_fs, f1, f2),
{
    let (i, j) = choose|i: int, j: int|
        fs_old_len <= i < j < mid_fs.len() && mid_fs[i] == f1 && mid_fs[j] == f2;
    assert(new_fs.subrange(0, mid_fs.len() as int)[i] == new_fs[i]);
    assert(new_fs.subrange(0, mid_fs.len() as int)[j] == new_fs[j]);
}

/// How many frames at or after position `lo` equal `f`.
pub open spec fn spec_count_from(fs: Seq<DaliFrame>, lo: int, f: DaliFrame) -> nat
    decreases fs.len() - lo, 0int
        when lo <= fs.len()
{
    if lo < 0 || lo >= fs.len() {
        0
    } else {
        ((if fs[lo] == f {
            1int
        } else {
            0int
        }) + spec_count_from(fs, lo + 1, f)) as nat
    }
}

/// Pushing one frame raises the count by one exactly when it matches.
pub proof fn lemma_count_from_push(fs: Seq<DaliFrame>, x: DaliFrame, lo: int, f: DaliFrame)
    requires
        0 <= lo <= fs.len(),
    ensures
        spec_count_from(fs.push(x), lo, f) == spec_count_from(fs, lo, f) + (if x == f {
            1int
        } else {
            0int
        }),
    decreases fs.len() - lo,
{
    if lo < fs.len() {
        assert(fs.push(x)[lo] == fs[lo]);
        lemma_count_from_push(fs, x, lo + 1, f);
    } else {
        assert(fs.push(x)[lo] == x);
        assert(spec_count_from(fs.push(x), lo + 1, f) == 0);
        assert(spec_count_from(fs, lo, f) == 0);
    }
}

/// Appending copies of `g` alone raises the count of `f` by the number
/// of copies when `f == g` and not at all otherwise.
pub proof fn lemma_count_from_extend_only(
    p: Seq<DaliFrame>,
    c: Seq<DaliFrame>,
    lo: int,
    f: DaliFrame,
    g: DaliFrame,
)
    requires
        0 <= lo <= p.len(),
        c.len() >= p.len(),
        c.subrange(0, p.len() as int) == p,
        forall|k: int| p.len() <= k < c.len() ==> c[k] == g,
    ensures
        spec_count_from(c, lo, f) == spec_count_from(p, lo, f) + (if f == g {
            c.len() - p.len()
        } else {
            0int
        }),
    decreases c.len() - p.len(),
{
    if c.len() == p.len() {
        assert(c =~= p);
    } else {
        let c1 = c.subrange(0, c.len() - 1);
        assert(c1.subrange(0, p.len() as int) =~= p);
        assert(c =~= c1.push(c[c.len() - 1]));
        lemma_count_from_extend_only(p, c1, lo, f, g);
        lemma_count_from_push(c1, c[c.len() - 1], lo, f);
        assert(spec_count_from(c, lo, f) == spec_count_from(c1.push(c[c.len() - 1]), lo, f));
    }
}

/// Appending frames none of which equals `f` leaves its count alone.
pub proof fn lemma_count_from_extend_none(
    p: Seq<DaliFrame>,
    c: Seq<DaliFrame>,
    lo: int,
    f: DaliFrame,
)
    requires
        0 <= lo <= p.len(),
        c.len() >= p.len(),
        c.subrange(0, p.len() as int) == p,
        forall|k: int| p.len() <= k < c.len() ==> c[k] != f,
    ensures
        spec_count_from(c, lo, f) == spec_count_from(p, lo, f),
    decreases c.len() - p.len(),
{
    if c.len() == p.len() {
        assert(c =~= p);
    } else {
        let c1 = c.subrange(0, c.len() - 1);
        assert(c1.subrange(0, p.len() as int) =~= p);
        assert(c =~= c1.push(c[c.len() - 1]));
        lemma_count_from_extend_none(p, c1, lo, f);
        lemma_count_from_push(c1, c[c.len() - 1], lo, f);
        assert(spec_count_from(c, lo, f) == spec_count_from(c1.push(c[c.len() - 1]), lo, f));
    }
}

/// `new_fs` extends `old_fs` with copies of `f` alone.
pub open spec fn spec_appended_only(
    old_fs: Seq<DaliFrame>,
    new_fs: Seq<DaliFrame>,
    f: DaliFrame,
) -> bool {
    spec_appended_within(old_fs, new_fs, Set::empty().insert(f))
}

/// Extending the history frame by frame keeps `spec_appended_within`.
pub proof fn lemma_appended_within_step(
    old_fs: Seq<DaliFrame>,
    mid_fs: Seq<DaliFrame>,
    new_fs: Seq<DaliFrame>,
    allowed: Set<DaliFrame>,
)
    requires
        spec_appended_within(old_fs, mid_fs, allowed),
        spec_appended_within(mid_fs, new_fs, allowed),
    ensures
        spec_appended_within(old_fs, new_fs, allowed),
{
    assert(new_fs.subrange(0, old_fs.len() as int) =~= mid_fs.subrange(0, old_fs.len() as int));
    assert forall|k: int| old_fs.len() <= k < new_fs.len() implies allowed.contains(
        #[trigger] new_fs[k],
    ) by {
        if k < mid_fs.len() {
            assert(new_fs.subrange(0, mid_fs.len() as int)[k] == new_fs[k]);
        }
    }
}

/// The protocol manager, owning its transport.
pub struct DaliManager<C: DaliController> {
    pub controller: C,
}

impl<C: DaliController> DaliManager<C> {
    /// All frames this manager's transport has sent.
    pub open spec fn frames(&self) -> Seq<DaliFrame> {
        self.controller.frames()
    }

    /// Buses the transport drives.
    pub open spec fn bus_count(&self) -> nat {
        self.controller.bus_count()
    }

    pub fn new(controller: C) -> (r: DaliManager<C>)
        ensures
            r.controller == controller,
    {
        DaliManager { controller }
    }

    /// One level frame to a short address.  Fire and forget: the reply
    /// is whatever the transport saw.
    pub fn set_light_brightness(&mut self, bus: usize, short_address: u8, level: u8) -> (r: Result<
        DaliBusResult,
        DaliManagerError,
    >)
        requires
            bus < old(self).bus_count(),
        ensures
            final(self).bus_count() == old(self).bus_count(),
            short_address >= 64 ==> r == Err::<DaliBusResult, DaliManagerError>(
                DaliManagerError::ShortAddress(short_address),
            ) && final(self).frames() == old(self).frames(),
            short_address < 64 ==> final(self).frames() == old(self).frames().push(
                spec_level_short_frame(bus, short_address, level),
            ),
    {
        if short_address >= 64 {
            return Err(DaliManagerError::ShortAddress(short_address));
        }
        let b1 = to_light_short_address(short_address);
        self.controller.send_2_bytes(bus, b1, level)
    }

    /// One level frame to a group.
    pub fn set_group_brightness(&mut self, bus: usize, group_address: u8, level: u8) -> (r: Result<
        DaliBusResult,
        DaliManagerError,
    >)
        requires
            bus < old(self).bus_count(),
        ensures
            final(self).bus_count() == old(self).bus_count(),
            group_address >= 16 ==> r == Err::<DaliBusResult, DaliManagerError>(
                DaliManagerError::GroupAddress(group_address),
            ) && final(self).frames() == old(self).frames(),
            group_address < 16 ==> final(self).frames() == old(self).frames().push(
                spec_level_group_frame(bus, group_address, level),
            ),
    {
        if group_address >= 16 {
            return Err(DaliManagerError::GroupAddress(group_address));
        }
        let b1 = to_light_group_address(group_address);
        self.controller.send_2_bytes(bus, b1, level)
    }

    /// One command frame to a short address; `repeat` uses send-twice.
    pub fn send_command_to_address(
        &mut self,
        bus: usize,
        command: u16,
        short_address: u8,
        repeat: bool,
    ) -> (r: Result<DaliBusResult, DaliManagerError>)
        requires
            bus < old(self).bus_count(),
        ensures
            final(self).bus_count() == old(self).bus_count(),
            command > 0xff ==> r == Err::<DaliBusResult, DaliManagerError>(
                DaliManagerError::Command(command),
            ) && final(self).frames() == old(self).frames(),
            command <= 0xff && short_address >= 64 ==> r == Err::<DaliBusResult, DaliManagerError>(
                DaliManagerError::ShortAddress(short_address),
            ) && final(self).frames() == old(self).frames(),
            command <= 0xff && short_address < 64 ==> final(self).frames() == old(self).frames().push(spec_command_short_frame(bus, command, short_address, repeat)),
    {
        if command > 0xff {
            return Err(DaliManagerError::Command(command));
        }
        if short_address >= 64 {
            return Err(DaliManagerError::ShortAddress(short_address));
        }
        let b1 = to_command_short_address(short_address);
        let b2 = (command & 0xff) as u8;
        if repeat {
            self.controller.send_2_bytes_repeat(bus, b1, b2)
        } else {
            self.controller.send_2_bytes(bus, b1, b2)
        }
    }

    /// One command frame to a group; `repeat` uses send-twice.
    pub fn send_command_to_group(
        &mut self,
        bus: usize,
        command: u16,
        group_address: u8,
        repeat: bool,
    ) -> (r: Result<DaliBusResult, DaliManagerError>)
        requires
            bus < old(self).bus_count(),
        ensures
            final(self).bus_count() == old(self).bus_count(),
            command > 0xff ==> r == Err::<DaliBusResult, DaliManagerError>(
                DaliManagerError::Command(command),
            ) && final(self).frames() == old(self).frames(),
            command <= 0xff && group_address >= 16 ==> r == Err::<DaliBusResult, DaliManagerError>(
                DaliManagerError::GroupAddress(group_address),
            ) && final(self).frames() == old(self).frames(),
            command <= 0xff && group_address < 16 ==> final(self).frames() == old(self).frames().push(spec_command_group_frame(bus, command, group_address, repeat)),
    {
        if command > 0xff {
            return Err(DaliManagerError::Command(command));
        }
        if group_address >= 16 {
            return Err(DaliManagerError::GroupAddress(group_address));
        }
        let b1 = to_command_group_address(group_address);
        let b2 = (command & 0xff) as u8;
        if repeat {
            self.controller.send_2_bytes_repeat(bus, b1, b2)
        } else {
            self.controller.send_2_bytes(bus, b1, b2)
        }
    }

    /// Broadcast `command`, retrying on collisions up to 300 times.
    /// On success the reply is collision free.
    #[verifier::loop_isolation(false)]
    pub fn broadcast_command(
        &mut self,
        bus: usize,
        command: u16,
        parameter: u8,
        repeat: bool,
    ) -> (r: Result<DaliBusResult, DaliManagerError>)
        requires
            bus < old(self).bus_count(),
        ensures
            final(self).bus_count() == old(self).bus_count(),
            spec_appended_only(
                old(self).frames(),
                final(self).frames(),
                spec_broadcast_frame(bus, command, parameter, repeat),
            ),
            1 <= final(self).frames().len() - old(self).frames().len() <= 301,
            r matches Ok(res) ==> !spec_is_collision(res),
    {
        let bytes = broadcast_frame_bytes(command, parameter);
        let b1 = bytes.0;
        let b2 = bytes.1;
        let ghost f = spec_broadcast_frame(bus, command, parameter, repeat);
        proof {
            assert((DaliFrame { bus, b1, b2, twice: repeat }) == f);
        }
        let mut collision_count: u32 = 0;
        proof {
            assert(self.frames().subrange(0, old(self).frames().len() as int) =~= old(self).frames());
        }
        loop
            invariant
                bus < self.bus_count(),
                self.bus_count() == old(self).bus_count(),
                collision_count <= 300,
                spec_appended_only(old(self).frames(), self.frames(), f),
                self.frames().len() - old(self).frames().len() == collision_count,
            decreases 301 - collision_count,
        {
            let ghost prev = self.frames();
            let sent = if repeat {
                self.controller.send_2_bytes_repeat(bus, b1, b2)
            } else {
                self.controller.send_2_bytes(bus, b1, b2)
            };
            proof {
                assert(self.frames() == prev.push(f));
                assert(self.frames().subrange(0, old(self).frames().len() as int) =~= old(self).frames());
            }
            let result = match sent {
                Ok(v) => v,
                Err(e) => {
                    return Err(e);
                },
            };
            if !is_collision(&result) {
                return Ok(result);
            }
            collision_count += 1;
            if collision_count > 300 {
                return Err(DaliManagerError::UnexpectedStatus(DaliBusResult::TransmitCollision));
            }
        }
    }

    /// Broadcast `command` once, letting the caller see a collision:
    /// during commissioning a collision means at least one device answered.
    pub fn broadcast_command_allow_collision(
        &mut self,
        bus: usize,
        command: u16,
        parameter: u8,
        repeat: bool,
    ) -> (r: Result<DaliBusResult, DaliManagerError>)
        requires
            bus < old(self).bus_count(),
        ensures
            final(self).bus_count() == old(self).bus_count(),
            final(self).frames() == old(self).frames().push(
                spec_broadcast_frame(bus, command, parameter, repeat),
            ),
    {
        let (b1, b2) = broadcast_frame_bytes(command, parameter);
        if repeat {
            self.controller.send_2_bytes_repeat(bus, b1, b2)
        } else {
            self.controller.send_2_bytes(bus, b1, b2)
        }
    }

    /// One command frame to a short address, retried up to 4 times until
    /// an 8-bit reply arrives.
    #[verifier::loop_isolation(false)]
    pub fn send_command_to_address_and_get_byte(
        &mut self,
        bus: usize,
        command: u16,
        short_address: u8,
        repeat: bool,
    ) -> (r: Result<u8, DaliManagerError>)
        requires
            bus < old(self).bus_count(),
        ensures
            final(self).bus_count() == old(self).bus_count(),
            command > 0xff ==> r == Err::<u8, DaliManagerError>(DaliManagerError::Command(command))
                && final(self).frames() == old(self).frames(),
            command <= 0xff && short_address >= 64 ==> r == Err::<u8, DaliManagerError>(
                DaliManagerError::ShortAddress(short_address),
            ) && final(self).frames() == old(self).frames(),
            command <= 0xff && short_address < 64 ==> spec_appended_only(
                old(self).frames(),
                final(self).frames(),
                spec_command_short_frame(bus, command, short_address, repeat),
            ) && 1 <= final(self).frames().len() - old(self).frames().len() <= 4,
    {
        if command > 0xff {
            return Err(DaliManagerError::Command(command));
        }
        if short_address >= 64 {
            return Err(DaliManagerError::ShortAddress(short_address));
        }
        let ghost f = spec_command_short_frame(bus, command, short_address, repeat);
        let mut retry_count: u32 = 4;
        proof {
            lemma_appended_within_refl(self.frames(), Set::empty().insert(f));
        }
        loop
            invariant
                1 <= retry_count <= 4,
                spec_appended_only(old(self).frames(), self.frames(), f),
                self.frames().len() - old(self).frames().len() == 4 - retry_count,
                self.bus_count() == old(self).bus_count(),
            decreases retry_count,
        {
            let ghost prev = self.frames();
            let sent = self.send_command_to_address(bus, command, short_address, repeat);
            proof {
                lemma_push_appended(prev, self.frames(), f);
                lemma_appended_within_step(
                    old(self).frames(),
                    prev,
                    self.frames(),
                    Set::empty().insert(f),
                );
            }
            let result = match sent {
                Ok(v) => v,
                Err(e) => {
                    return Err(e);
                },
            };
            if let DaliBusResult::Value8(b) = result {
                return Ok(b);
            }
            retry_count -= 1;
            if retry_count == 0 {
                return Err(DaliManagerError::NoResult);
            }
        }
    }

    /// Broadcast the short address to programme into the selected
    /// device, then withdraw it from the search until it stops answering.
    #[verifier::loop_isolation(false)]
    pub fn program_short_address(&mut self, bus: usize, short_address: u8) -> (r: Result<
        (),
        DaliManagerError,
    >)
        requires
            bus < old(self).bus_count(),
        ensures
            final(self).bus_count() == old(self).bus_count(),
            short_address >= 64 ==> r == Err::<(), DaliManagerError>(
                DaliManagerError::ShortAddress(short_address),
            ) && final(self).frames() == old(self).frames(),
            short_address < 64 ==> spec_appended_within(
                old(self).frames(),
                final(self).frames(),
                set![
                    spec_broadcast_frame(
                        bus,
                        dali_commands::DALI_PROGRAM_SHORT_ADDRESS,
                        (2 * short_address + 1) as u8,
                        false,
                    ),
                    spec_broadcast_frame(bus, dali_commands::DALI_WITHDRAW, 0, false),
                ],
            ) && spec_frame_sent(
                old(self).frames().len() as int,
                final(self).frames(),
                spec_broadcast_frame(
                    bus,
                    dali_commands::DALI_PROGRAM_SHORT_ADDRESS,
                    (2 * short_address + 1) as u8,
                    false,
                ),
            ),
            final(self).frames().len() >= old(self).frames().len(),
    {
        if short_address >= 64 {
            return Err(DaliManagerError::ShortAddress(short_address));
        }
        let ghost allowed = set![
            spec_broadcast_frame(
                bus,
                dali_commands::DALI_PROGRAM_SHORT_ADDRESS,
                (2 * short_address + 1) as u8,
                false,
            ),
            spec_broadcast_frame(bus, dali_commands::DALI_WITHDRAW, 0, false),
        ];
        let ghost prev = self.frames();
        let sent = self.broadcast_command(
            bus,
            dali_commands::DALI_PROGRAM_SHORT_ADDRESS,
            (short_address << 1) | 0x01,
            false,
        );
        proof {
            assert((short_address << 1) | 0x01 == (2 * short_address + 1) as u8) by (bit_vector)
                requires
                    short_address < 64,
            ;
            lemma_appended_within_widen(
                prev,
                self.frames(),
                Set::empty().insert(
                    spec_broadcast_frame(
                        bus,
                        dali_commands::DALI_PROGRAM_SHORT_ADDRESS,
                        (2 * short_address + 1) as u8,
                        false,
                    ),
                ),
                allowed,
            );
        }
        proof {
            assert(self.frames()[old(self).frames().len() as int] == spec_broadcast_frame(
                bus,
                dali_commands::DALI_PROGRAM_SHORT_ADDRESS,
                (2 * short_address + 1) as u8,
                false,
            ));
            assert(spec_frame_sent(
                old(self).frames().len() as int,
                self.frames(),
                spec_broadcast_frame(
                    bus,
                    dali_commands::DALI_PROGRAM_SHORT_ADDRESS,
                    (2 * short_address + 1) as u8,
                    false,
                ),
            ));
        }
        if let Err(e) = sent {
            return Err(e);
        }
        let mut withdraw_count: u32 = 0;
        loop
            invariant
                withdraw_count <= 300,
                spec_appended_within(old(self).frames(), self.frames(), allowed),
                spec_frame_sent(
                    old(self).frames().len() as int,
                    self.frames(),
                    spec_broadcast_frame(
                        bus,
                        dali_commands::DALI_PROGRAM_SHORT_ADDRESS,
                        (2 * short_address + 1) as u8,
                        false,
                    ),
                ),
                self.frames().len() > old(self).frames().len(),
                self.bus_count() == old(self).bus_count(),
            decreases 300 - withdraw_count,
        {
            let ghost mid = self.frames();
            let sent = self.broadcast_command(bus, dali_commands::DALI_WITHDRAW, 0, false);
            proof {
                lemma_appended_within_widen(
                    mid,
                    self.frames(),
                    Set::empty().insert(
                        spec_broadcast_frame(bus, dali_commands::DALI_WITHDRAW, 0, false),
                    ),
                    allowed,
                );
                lemma_appended_within_step(old(self).frames(), mid, self.frames(), allowed);
                lemma_frame_sent_extend(
                    old(self).frames().len() as int,
                    mid,
                    self.frames(),
                    spec_broadcast_frame(
                        bus,
                        dali_commands::DALI_PROGRAM_SHORT_ADDRESS,
                        (2 * short_address + 1) as u8,
                        false,
                    ),
                );
            }
            let status = match sent {
                Ok(v) => v,
                Err(e) => {
                    return Err(e);
                },
            };
            if let DaliBusResult::NoReply = status {
                return Ok(());
            }
            withdraw_count += 1;
            if withdraw_count > 300 {
                return Err(DaliManagerError::UnexpectedStatus(status));
            }
        }
    }

    /// Broadcast one value into every device's data transfer register.
    pub fn set_dtr(&mut self, bus: usize, value: u8) -> (r: Result<DaliBusResult, DaliManagerError>)
        requires
            bus < old(self).bus_count(),
        ensures
            final(self).bus_count() == old(self).bus_count(),
            spec_appended_only(
                old(self).frames(),
                final(self).frames(),
                spec_broadcast_frame(bus, dali_commands::DALI_DATA_TRANSFER_REGISTER0, value, false),
            ),
            1 <= final(self).frames().len() - old(self).frames().len() <= 301,
    {
        self.broadcast_command(bus, dali_commands::DALI_DATA_TRANSFER_REGISTER0, value, false)
    }

    /// Set one light's fade time: store it in the DTR, then SET FADE
    /// TIME; a fade time of 0 is followed by SET EXTENDED FADE TIME so
    /// that fading is disabled entirely.  On success, the extended-fade
    /// follow-up frame was sent if and only if `fade_time` is 0.
    pub fn set_light_fade_time(&mut self, bus: usize, short_address: u8, fade_time: u8) -> (r:
        Result<DaliBusResult, DaliManagerError>)
        requires
            bus < old(self).bus_count(),
        ensures
            final(self).bus_count() == old(self).bus_count(),
            short_address >= 64 ==> r == Err::<DaliBusResult, DaliManagerError>(
                DaliManagerError::ShortAddress(short_address),
            ) && final(self).frames() == old(self).frames(),
            short_address < 64 && fade_time > 15 ==> r == Err::<DaliBusResult, DaliManagerError>(
                DaliManagerError::FadeTime(fade_time),
            ) && final(self).frames() == old(self).frames(),
            short_address < 64 && fade_time <= 15 ==> spec_appended_within(
                old(self).frames(),
                final(self).frames(),
                set![
                    spec_broadcast_frame(
                        bus,
                        dali_commands::DALI_DATA_TRANSFER_REGISTER0,
                        fade_time,
                        false,
                    ),
                    spec_command_short_frame(
                        bus,
                        dali_commands::DALI_SET_FADE_TIME,
                        short_address,
                        true,
                    ),
                    spec_command_short_frame(
                        bus,
                        dali_commands::DALI_SET_EXTENDED_FADE_TIME,
                        short_address,
                        true,
                    ),
                ],
            ),
            short_address < 64 && fade_time <= 15 && r is Ok ==> spec_frames_ordered(
                old(self).frames().len() as int,
                final(self).frames(),
                spec_broadcast_frame(bus, dali_commands::DALI_DATA_TRANSFER_REGISTER0, fade_time, false),
                spec_command_short_frame(bus, dali_commands::DALI_SET_FADE_TIME, short_address, true),
            ),
            short_address < 64 && fade_time <= 15 && r is Ok ==> ((fade_time == 0)
                <==> spec_frame_sent(
                old(self).frames().len() as int,
                final(self).frames(),
                spec_command_short_frame(
                    bus,
                    dali_commands::DALI_SET_EXTENDED_FADE_TIME,
                    short_address,
                    true,
                ),
            )),
            short_address < 64 && fade_time == 0 && r is Ok ==> spec_frames_ordered(
                old(self).frames().len() as int,
                final(self).frames(),
                spec_command_short_frame(bus, dali_commands::DALI_SET_FADE_TIME, short_address, true),
                spec_command_short_frame(
                    bus,
                    dali_commands::DALI_SET_EXTENDED_FADE_TIME,
                    short_address,
                    true,
                ),
            ),
            r is Ok ==> r == Ok::<DaliBusResult, DaliManagerError>(DaliBusResult::NoReply),
    {
        if short_address >= 64 {
            return Err(DaliManagerError::ShortAddress(short_address));
        }
        if fade_time > 15 {
            return Err(DaliManagerError::FadeTime(fade_time));
        }
        let ghost dtr_f = spec_broadcast_frame(
            bus,
            dali_commands::DALI_DATA_TRANSFER_REGISTER0,
            fade_time,
            false,
        );
        let ghost fade_f = spec_command_short_frame(
            bus,
            dali_commands::DALI_SET_FADE_TIME,
            short_address,
            true,
        );
        let ghost ext_f = spec_command_short_frame(
            bus,
            dali_commands::DALI_SET_EXTENDED_FADE_TIME,
            short_address,
            true,
        );
        let ghost part = set![dtr_f, fade_f];
        let ghost all = set![dtr_f, fade_f, ext_f];
        proof {
            lemma_command_code_bytes();
            assert(ext_f != dtr_f);
            assert(ext_f != fade_f);
        }
        let sent = self.set_dtr(bus, fade_time);
        proof {
            lemma_appended_within_widen(
                old(self).frames(),
                self.frames(),
                Set::empty().insert(dtr_f),
                part,
            );
            lemma_appended_within_widen(old(self).frames(), self.frames(), part, all);
        }
        if let Err(e) = sent {
            return Err(e);
        }
        let ghost p1 = self.frames();
        let sent = self.send_command_to_address(
            bus,
            dali_commands::DALI_SET_FADE_TIME,
            short_address,
            true,
        );
        proof {
            lemma_push_appended(p1, self.frames(), fade_f);
            lemma_appended_within_widen(p1, self.frames(), Set::empty().insert(fade_f), part);
            lemma_appended_within_step(old(self).frames(), p1, self.frames(), part);
            lemma_appended_within_widen(old(self).frames(), self.frames(), part, all);
            let lo = old(self).frames().len() as int;
            assert(p1[lo] == dtr_f);
            assert(self.frames()[lo] == dtr_f);
            assert(self.frames()[p1.len() as int] == fade_f);
            assert(spec_frames_ordered(lo, self.frames(), dtr_f, fade_f));
        }
        if let Err(e) = sent {
            return Err(e);
        }
        if fade_time == 0 {
            let ghost p2 = self.frames();
            let sent = self.send_command_to_address(
                bus,
                dali_commands::DALI_SET_EXTENDED_FADE_TIME,
                short_address,
                true,
            );
            proof {
                lemma_push_appended(p2, self.frames(), ext_f);
                lemma_appended_within_widen(p2, self.frames(), Set::empty().insert(ext_f), all);
                lemma_appended_within_step(old(self).frames(), p2, self.frames(), all);
                let lo = old(self).frames().len() as int;
                assert(self.frames()[p2.len() as int] == ext_f);
                assert(spec_frame_sent(lo, self.frames(), ext_f));
                assert(self.frames()[p1.len() as int] == fade_f);
                assert(spec_frames_ordered(lo, self.frames(), fade_f, ext_f));
                lemma_frames_ordered_extend(lo, p2, self.frames(), dtr_f, fade_f);
            }
            if let Err(e) = sent {
                return Err(e);
            }
        }
        Ok(DaliBusResult::NoReply)
    }

    /// Set a group's fade time, with the same DTR protocol and the same
    /// extended-fade follow-up on a fade time of 0.
    pub fn set_group_fade_time(&mut self, bus: usize, group_address: u8, fade_time: u8) -> (r:
        Result<DaliBusResult, DaliManagerError>)
        requires
            bus < old(self).bus_count(),
        ensures
            final(self).bus_count() == old(self).bus_count(),
            group_address >= 16 ==> r == Err::<DaliBusResult, DaliManagerError>(
                DaliManagerError::GroupAddress(group_address),
            ) && final(self).frames() == old(self).frames(),
            group_address < 16 && fade_time > 15 ==> r == Err::<DaliBusResult, DaliManagerError>(
                DaliManagerError::FadeTime(fade_time),
            ) && final(self).frames() == old(self).frames(),
            group_address < 16 && fade_time <= 15 ==> spec_appended_within(
                old(self).frames(),
                final(self).frames(),
                set![
                    spec_broadcast_frame(
                        bus,
                        dali_commands::DALI_DATA_TRANSFER_REGISTER0,
                        fade_time,
                        false,
                    ),
                    spec_command_group_frame(
                        bus,
                        dali_commands::DALI_SET_FADE_TIME,
                        group_address,
                        true,
                    ),
                    spec_command_group_frame(
                        bus,
                        dali_commands::DALI_SET_EXTENDED_FADE_TIME,
                        group_address,
                        true,
                    ),
                ],
            ),
            group_address < 16 && fade_time <= 15 && r is Ok ==> spec_frames_ordered(
                old(self).frames().len() as int,
                final(self).frames(),
                spec_broadcast_frame(bus, dali_commands::DALI_DATA_TRANSFER_REGISTER0, fade_time, false),
                spec_command_group_frame(bus, dali_commands::DALI_SET_FADE_TIME, group_address, true),
            ),
            group_address < 16 && fade_time <= 15 && r is Ok ==> ((fade_time == 0)
                <==> spec_frame_sent(
                old(self).frames().len() as int,
                final(self).frames(),
                spec_command_group_frame(
                    bus,
                    dali_commands::DALI_SET_EXTENDED_FADE_TIME,
                    group_address,
                    true,
                ),
            )),
            group_address < 16 && fade_time == 0 && r is Ok ==> spec_frames_ordered(
                old(self).frames().len() as int,
                final(self).frames(),
                spec_command_group_frame(bus, dali_commands::DALI_SET_FADE_TIME, group_address, true),
                spec_command_group_frame(
                    bus,
                    dali_commands::DALI_SET_EXTENDED_FADE_TIME,
                    group_address,
                    true,
                ),
            ),
            r is Ok ==> r == Ok::<DaliBusResult, DaliManagerError>(DaliBusResult::NoReply),
    {
        if group_address >= 16 {
            return Err(DaliManagerError::GroupAddress(group_address));
        }
        if fade_time > 15 {
            return Err(DaliManagerError::FadeTime(fade_time));
        }
        let ghost dtr_f = spec_broadcast_frame(
            bus,
            dali_commands::DALI_DATA_TRANSFER_REGISTER0,
            fade_time,
            false,
        );
        let ghost fade_f = spec_command_group_frame(
            bus,
            dali_commands::DALI_SET_FADE_TIME,
            group_address,
            true,
        );
        let ghost ext_f = spec_command_group_frame(
            bus,
            dali_commands::DALI_SET_EXTENDED_FADE_TIME,
            group_address,
            true,
        );
        let ghost part = set![dtr_f, fade_f];
        let ghost all = set![dtr_f, fade_f, ext_f];
        proof {
            lemma_command_code_bytes();
            assert(ext_f != dtr_f);
            assert(ext_f != fade_f);
        }
        let sent = self.set_dtr(bus, fade_time);
        proof {
            lemma_appended_within_widen(
                old(self).frames(),
                self.frames(),
                Set::empty().insert(dtr_f),
                part,
            );
            lemma_appended_within_widen(old(self).frames(), self.frames(), part, all);
        }
        if let Err(e) = sent {
            return Err(e);
        }
        let ghost p1 = self.frames();
        let sent = self.send_command_to_group(
            bus,
            dali_commands::DALI_SET_FADE_TIME,
            group_address,
            true,
        );
        proof {
            lemma_push_appended(p1, self.frames(), fade_f);
            lemma_appended_within_widen(p1, self.frames(), Set::empty().insert(fade_f), part);
            lemma_appended_within_step(old(self).frames(), p1, self.frames(), part);
            lemma_appended_within_widen(old(self).frames(), self.frames(), part, all);
            let lo = old(self).frames().len() as int;
            assert(p1[lo] == dtr_f);
            assert(self.frames()[lo] == dtr_f);
            assert(self.frames()[p1.len() as int] == fade_f);
            assert(spec_frames_ordered(lo, self.frames(), dtr_f, fade_f));
        }
        if let Err(e) = sent {
            return Err(e);
        }
        if fade_time == 0 {
            let ghost p2 = self.frames();
            let sent = self.send_command_to_group(
                bus,
                dali_commands::DALI_SET_EXTENDED_FADE_TIME,
                group_address,
                true,
            );
            proof {
                lemma_push_appended(p2, self.frames(), ext_f);
                lemma_appended_within_widen(p2, self.frames(), Set::empty().insert(ext_f), all);
                lemma_appended_within_step(old(self).frames(), p2, self.frames(), all);
                let lo = old(self).frames().len() as int;
                assert(self.frames()[p2.len() as int] == ext_f);
                assert(spec_frame_sent(lo, self.frames(), ext_f));
                assert(self.frames()[p1.len() as int] == fade_f);
                assert(spec_frames_ordered(lo, self.frames(), fade_f, ext_f));
                lemma_frames_ordered_extend(lo, p2, self.frames(), dtr_f, fade_f);
            }
            if let Err(e) = sent {
                return Err(e);
            }
        }
        Ok(DaliBusResult::NoReply)
    }

    /// Read one light's 16-bit group-membership mask from its two
    /// membership reply bytes.
    pub fn query_group_membership(&mut self, bus: usize, short_address: u8) -> (r: Result<
        u16,
        DaliManagerError,
    >)
        requires
            bus < old(self).bus_count(),
        ensures
            final(self).bus_count() == old(self).bus_count(),
            short_address >= 64 ==> r == Err::<u16, DaliManagerError>(
                DaliManagerError::ShortAddress(short_address),
            ) && final(self).frames() == old(self).frames(),
            short_address < 64 ==> spec_appended_within(
                old(self).frames(),
                final(self).frames(),
                set![
                    spec_command_short_frame(
                        bus,
                        dali_commands::DALI_QUERY_GROUPS_0_7,
                        short_address,
                        false,
                    ),
                    spec_command_short_frame(
                        bus,
                        dali_commands::DALI_QUERY_GROUPS_8_15,
                        short_address,
                        false,
                    ),
                ],
            ) && final(self).frames().len() - old(self).frames().len() <= 8,
            short_address < 64 ==> spec_frame_sent(
                old(self).frames().len() as int,
                final(self).frames(),
                spec_command_short_frame(
                    bus,
                    dali_commands::DALI_QUERY_GROUPS_0_7,
                    short_address,
                    false,
                ),
            ),
    {
        if short_address >= 64 {
            return Err(DaliManagerError::ShortAddress(short_address));
        }
        let ghost q07_f = spec_command_short_frame(
            bus,
            dali_commands::DALI_QUERY_GROUPS_0_7,
            short_address,
            false,
        );
        let ghost q815_f = spec_command_short_frame(
            bus,
            dali_commands::DALI_QUERY_GROUPS_8_15,
            short_address,
            false,
        );
        let ghost all = set![q07_f, q815_f];
        let got = self.send_command_to_address_and_get_byte(
            bus,
            dali_commands::DALI_QUERY_GROUPS_0_7,
            short_address,
            false,
        );
        proof {
            lemma_appended_within_widen(
                old(self).frames(),
                self.frames(),
                Set::empty().insert(q07_f),
                all,
            );
            assert(self.frames()[old(self).frames().len() as int] == q07_f);
            assert(spec_frame_sent(old(self).frames().len() as int, self.frames(), q07_f));
        }
        let groups_0to7 = match got {
            Ok(v) => v,
            Err(e) => {
                return Err(e);
            },
        };
        let ghost p1 = self.frames();
        let got = self.send_command_to_address_and_get_byte(
            bus,
            dali_commands::DALI_QUERY_GROUPS_8_15,
            short_address,
            false,
        );
        proof {
            lemma_appended_within_widen(p1, self.frames(), Set::empty().insert(q815_f), all);
            lemma_appended_within_step(old(self).frames(), p1, self.frames(), all);
            lemma_frame_sent_extend(
                old(self).frames().len() as int,
                p1,
                self.frames(),
                q07_f,
            );
        }
        let groups_8to15 = match got {
            Ok(v) => v,
            Err(e) => {
                return Err(e);
            },
        };
        Ok(combine_group_mask(groups_0to7, groups_8to15))
    }

    /// Whether one light reports itself a member of `group_address`.
    pub fn is_group_member(&mut self, bus: usize, short_address: u8, group_address: u8) -> (r:
        Result<bool, DaliManagerError>)
        requires
            bus < old(self).bus_count(),
            group_address < 16,
        ensures
            final(self).bus_count() == old(self).bus_count(),
            short_address >= 64 ==> r == Err::<bool, DaliManagerError>(
                DaliManagerError::ShortAddress(short_address),
            ) && final(self).frames() == old(self).frames(),
            short_address < 64 ==> spec_appended_within(
                old(self).frames(),
                final(self).frames(),
                set![
                    spec_command_short_frame(
                        bus,
                        dali_commands::DALI_QUERY_GROUPS_0_7,
                        short_address,
                        false,
                    ),
                    spec_command_short_frame(
                        bus,
                        dali_commands::DALI_QUERY_GROUPS_8_15,
                        short_address,
                        false,
                    ),
                ],
            ) && final(self).frames().len() - old(self).frames().len() <= 8,
    {
        let membership_mask = match self.query_group_membership(bus, short_address) {
            Ok(v) => v,
            Err(e) => {
                return Err(e);
            },
        };
        Ok(group_mask_has(membership_mask, group_address))
    }

    /// One send-twice command adding a light to a group.
    pub fn add_to_group(&mut self, bus: usize, group_address: u8, short_address: u8) -> (r: Result<
        DaliBusResult,
        DaliManagerError,
    >)
        requires
            bus < old(self).bus_count(),
        ensures
            final(self).bus_count() == old(self).bus_count(),
            group_address >= 16 ==> r == Err::<DaliBusResult, DaliManagerError>(
                DaliManagerError::GroupAddress(group_address),
            ) && final(self).frames() == old(self).frames(),
            group_address < 16 && short_address >= 64 ==> r == Err::<DaliBusResult,
                DaliManagerError,
            >(DaliManagerError::ShortAddress(short_address)) && final(self).frames() == old(self).frames(),
            group_address < 16 && short_address < 64 ==> final(self).frames() == old(self).frames().push(
                spec_command_short_frame(
                    bus,
                    (dali_commands::DALI_ADD_TO_GROUP0 + group_address as u16) as u16,
                    short_address,
                    true,
                ),
            ),
    {
        if group_address >= 16 {
            return Err(DaliManagerError::GroupAddress(group_address));
        }
        self.send_command_to_address(
            bus,
            dali_commands::DALI_ADD_TO_GROUP0 + group_address as u16,
            short_address,
            true,
        )
    }

    /// One send-twice command removing a light from a group.
    pub fn remove_from_group(&mut self, bus: usize, group_address: u8, short_address: u8) -> (r:
        Result<DaliBusResult, DaliManagerError>)
        requires
            bus < old(self).bus_count(),
        ensures
            final(self).bus_count() == old(self).bus_count(),
            group_address >= 16 ==> r == Err::<DaliBusResult, DaliManagerError>(
                DaliManagerError::GroupAddress(group_address),
            ) && final(self).frames() == old(self).frames(),
            group_address < 16 && short_address >= 64 ==> r == Err::<DaliBusResult,
                DaliManagerError,
            >(DaliManagerError::ShortAddress(short_address)) && final(self).frames() == old(self).frames(),
            group_address < 16 && short_address < 64 ==> final(self).frames() == old(self).frames().push(
                spec_command_short_frame(
                    bus,
                    (dali_commands::DALI_REMOVE_FROM_GROUP0 + group_address as u16) as u16,
                    short_address,
                    true,
                ),
            ),
    {
        if group_address >= 16 {
            return Err(DaliManagerError::GroupAddress(group_address));
        }
        self.send_command_to_address(
            bus,
            dali_commands::DALI_REMOVE_FROM_GROUP0 + group_address as u16,
            short_address,
            true,
        )
    }

    /// Add a light to a group and read the membership mask back, up to 8
    /// times, until the device confirms the membership.
    #[verifier::loop_isolation(false)]
    pub fn add_to_group_and_verify(
        &mut self,
        bus: usize,
        group_address: u8,
        short_address: u8,
    ) -> (r: Result<DaliBusResult, DaliManagerError>)
        requires
            bus < old(self).bus_count(),
        ensures
            final(self).bus_count() == old(self).bus_count(),
            group_address >= 16 ==> r == Err::<DaliBusResult, DaliManagerError>(
                DaliManagerError::GroupAddress(group_address),
            ) && final(self).frames() == old(self).frames(),
            group_address < 16 && short_address >= 64 ==> r == Err::<DaliBusResult,
                DaliManagerError,
            >(DaliManagerError::ShortAddress(short_address)) && final(self).frames() == old(self).frames(),
            group_address < 16 && short_address < 64 ==> spec_appended_within(
                old(self).frames(),
                final(self).frames(),
                set![
                    spec_command_short_frame(
                        bus,
                        (dali_commands::DALI_ADD_TO_GROUP0 + group_address as u16) as u16,
                        short_address,
                        true,
                    ),
                    spec_command_short_frame(
                        bus,
                        dali_commands::DALI_QUERY_GROUPS_0_7,
                        short_address,
                        false,
                    ),
                    spec_command_short_frame(
                        bus,
                        dali_commands::DALI_QUERY_GROUPS_8_15,
                        short_address,
                        false,
                    ),
                ],
            ) && final(self).frames().len() > old(self).frames().len() && final(self).frames().len()
                - old(self).frames().len() <= 72,
            group_address < 16 && short_address < 64 ==> spec_frame_sent(
                old(self).frames().len() as int,
                final(self).frames(),
                spec_command_short_frame(
                    bus,
                    (dali_commands::DALI_ADD_TO_GROUP0 + group_address as u16) as u16,
                    short_address,
                    true,
                ),
            ),
            r is Ok ==> r == Ok::<DaliBusResult, DaliManagerError>(DaliBusResult::NoReply),
    {
        if group_address >= 16 {
            return Err(DaliManagerError::GroupAddress(group_address));
        }
        if short_address >= 64 {
            return Err(DaliManagerError::ShortAddress(short_address));
        }
        let ghost add_f = spec_command_short_frame(
            bus,
            (dali_commands::DALI_ADD_TO_GROUP0 + group_address as u16) as u16,
            short_address,
            true,
        );
        let ghost q07_f = spec_command_short_frame(
            bus,
            dali_commands::DALI_QUERY_GROUPS_0_7,
            short_address,
            false,
        );
        let ghost q815_f = spec_command_short_frame(
            bus,
            dali_commands::DALI_QUERY_GROUPS_8_15,
            short_address,
            false,
        );
        let ghost all = set![add_f, q07_f, q815_f];
        proof {
            lemma_appended_within_refl(self.frames(), all);
        }
        let mut retry_count: u32 = 8;
        loop
            invariant
                1 <= retry_count <= 8,
                spec_appended_within(old(self).frames(), self.frames(), all),
                self.frames().len() - old(self).frames().len() <= 9 * (8 - retry_count),
                retry_count < 8 ==> spec_frame_sent(
                    old(self).frames().len() as int,
                    self.frames(),
                    add_f,
                ),
                self.bus_count() == old(self).bus_count(),
            decreases retry_count,
        {
            let ghost p0 = self.frames();
            let sent = self.add_to_group(bus, group_address, short_address);
            proof {
                lemma_push_appended(p0, self.frames(), add_f);
                lemma_appended_within_widen(p0, self.frames(), Set::empty().insert(add_f), all);
                lemma_appended_within_step(old(self).frames(), p0, self.frames(), all);
                assert(self.frames()[p0.len() as int] == add_f);
                assert(spec_frame_sent(old(self).frames().len() as int, self.frames(), add_f));
            }
            if let Err(e) = sent {
                return Err(e);
            }
            let ghost p1 = self.frames();
            let member = self.is_group_member(bus, short_address, group_address);
            proof {
                lemma_appended_within_widen(p1, self.frames(), set![q07_f, q815_f], all);
                lemma_appended_within_step(old(self).frames(), p1, self.frames(), all);
                lemma_frame_sent_extend(
                    old(self).frames().len() as int,
                    p1,
                    self.frames(),
                    add_f,
                );
            }
            match member {
                Ok(true) => {
                    return Ok(DaliBusResult::NoReply);
                },
                Ok(false) => {},
                Err(e) => {
                    return Err(e);
                },
            }
            retry_count -= 1;
            if retry_count == 0 {
                return Err(DaliManagerError::GroupAddFailed(short_address, group_address));
            }
        }
    }

    /// Remove a light from a group and read the membership mask back, up
    /// to 3 times, until the device confirms the removal.
    #[verifier::loop_isolation(false)]
    pub fn remove_from_group_and_verify(
        &mut self,
        bus: usize,
        group_address: u8,
        short_address: u8,
    ) -> (r: Result<DaliBusResult, DaliManagerError>)
        requires
            bus < old(self).bus_count(),
        ensures
            final(self).bus_count() == old(self).bus_count(),
            group_address >= 16 ==> r == Err::<DaliBusResult, DaliManagerError>(
                DaliManagerError::GroupAddress(group_address),
            ) && final(self).frames() == old(self).frames(),
            group_address < 16 && short_address >= 64 ==> r == Err::<DaliBusResult,
                DaliManagerError,
            >(DaliManagerError::ShortAddress(short_address)) && final(self).frames() == old(self).frames(),
            group_address < 16 && short_address < 64 ==> spec_appended_within(
                old(self).frames(),
                final(self).frames(),
                set![
                    spec_command_short_frame(
                        bus,
                        (dali_commands::DALI_REMOVE_FROM_GROUP0 + group_address as u16) as u16,
                        short_address,
                        true,
                    ),
                    spec_command_short_frame(
                        bus,
                        dali_commands::DALI_QUERY_GROUPS_0_7,
                        short_address,
                        false,
                    ),
                    spec_command_short_frame(
                        bus,
                        dali_commands::DALI_QUERY_GROUPS_8_15,
                        short_address,
                        false,
                    ),
                ],
            ) && final(self).frames().len() > old(self).frames().len() && final(self).frames().len()
                - old(self).frames().len() <= 27,
            group_address < 16 && short_address < 64 ==> spec_frame_sent(
                old(self).frames().len() as int,
                final(self).frames(),
                spec_command_short_frame(
                    bus,
                    (dali_commands::DALI_REMOVE_FROM_GROUP0 + group_address as u16) as u16,
                    short_address,
                    true,
                ),
            ),
            r is Ok ==> r == Ok::<DaliBusResult, DaliManagerError>(DaliBusResult::NoReply),
    {
        if group_address >= 16 {
            return Err(DaliManagerError::GroupAddress(group_address));
        }
        if short_address >= 64 {
            return Err(DaliManagerError::ShortAddress(short_address));
        }
        let ghost rm_f = spec_command_short_frame(
            bus,
            (dali_commands::DALI_REMOVE_FROM_GROUP0 + group_address as u16) as u16,
            short_address,
            true,
        );
        let ghost q07_f = spec_command_short_frame(
            bus,
            dali_commands::DALI_QUERY_GROUPS_0_7,
            short_address,
            false,
        );
        let ghost q815_f = spec_command_short_frame(
            bus,
            dali_commands::DALI_QUERY_GROUPS_8_15,
            short_address,
            false,
        );
        let ghost all = set![rm_f, q07_f, q815_f];
        proof {
            lemma_appended_within_refl(self.frames(), all);
        }
        let mut retry_count: u32 = 3;
        loop
            invariant
                1 <= retry_count <= 3,
                spec_appended_within(old(self).frames(), self.frames(), all),
                self.frames().len() - old(self).frames().len() <= 9 * (3 - retry_count),
                retry_count < 3 ==> spec_frame_sent(
                    old(self).frames().len() as int,
                    self.frames(),
                    rm_f,
                ),
                self.bus_count() == old(self).bus_count(),
            decreases retry_count,
        {
            let ghost p0 = self.frames();
            let sent = self.remove_from_group(bus, group_address, short_address);
            proof {
                lemma_push_appended(p0, self.frames(), rm_f);
                lemma_appended_within_widen(p0, self.frames(), Set::empty().insert(rm_f), all);
                lemma_appended_within_step(old(self).frames(), p0, self.frames(), all);
                assert(self.frames()[p0.len() as int] == rm_f);
                assert(spec_frame_sent(old(self).frames().len() as int, self.frames(), rm_f));
            }
            if let Err(e) = sent {
                return Err(e);
            }
            let ghost p1 = self.frames();
            let member = self.is_group_member(bus, short_address, group_address);
            proof {
                lemma_appended_within_widen(p1, self.frames(), set![q07_f, q815_f], all);
                lemma_appended_within_step(old(self).frames(), p1, self.frames(), all);
                lemma_frame_sent_extend(
                    old(self).frames().len() as int,
                    p1,
                    self.frames(),
                    rm_f,
                );
            }
            match member {
                Ok(false) => {
                    return Ok(DaliBusResult::NoReply);
                },
                Ok(true) => {},
                Err(e) => {
                    return Err(e);
                },
            }
            retry_count -= 1;
            if retry_count == 0 {
                return Err(DaliManagerError::GroupRemoveFailed(short_address, group_address));
            }
        }
    }

    /// Query one light's status byte.
    pub fn query_light_status(&mut self, bus: usize, short_address: u8) -> (r: Result<
        LightStatus,
        DaliManagerError,
    >)
        requires
            bus < old(self).bus_count(),
        ensures
            final(self).bus_count() == old(self).bus_count(),
            short_address >= 64 ==> r == Err::<LightStatus, DaliManagerError>(
                DaliManagerError::ShortAddress(short_address),
            ) && final(self).frames() == old(self).frames(),
            short_address < 64 ==> final(self).frames() == old(self).frames().push(
                spec_command_short_frame(bus, dali_commands::DALI_QUERY_STATUS, short_address, false),
            ),
    {
        match self.send_command_to_address(
            bus,
            dali_commands::DALI_QUERY_STATUS,
            short_address,
            false,
        ) {
            Ok(DaliBusResult::Value8(v)) => Ok(LightStatus(v)),
            Ok(bus_result) => Err(DaliManagerError::UnexpectedStatus(bus_result)),
            Err(e) => Err(e),
        }
    }

    /// Change one short address to another on the device and in the bus
    /// configuration.  A new address of 0xff removes the short address:
    /// the device is found again by the next commissioning.  On success
    /// the channel keeps its description under its new address.
    pub fn change_short_address(
        &mut self,
        bus_config: &mut BusConfig,
        existing_address: u8,
        new_address: u8,
    ) -> (r: Result<DaliBusResult, DaliManagerError>)
        requires
            old(bus_config).bus < old(self).bus_count(),
        ensures
            final(self).bus_count() == old(self).bus_count(),
            existing_address >= 64 ==> r == Err::<DaliBusResult, DaliManagerError>(
                DaliManagerError::ShortAddress(existing_address),
            ) && final(self).frames() == old(self).frames(),
            existing_address < 64 && new_address >= 64 && new_address != 0xff ==> r == Err::<
                DaliBusResult,
                DaliManagerError,
            >(DaliManagerError::ShortAddress(new_address)) && final(self).frames() == old(
                self,
            ).frames(),
            spec_appended_within(
                old(self).frames(),
                final(self).frames(),
                set![
                    spec_broadcast_frame(
                        old(bus_config).bus,
                        dali_commands::DALI_DATA_TRANSFER_REGISTER0,
                        new_address,
                        false,
                    ),
                    spec_command_short_frame(
                        old(bus_config).bus,
                        dali_commands::DALI_SET_SHORT_ADDRESS,
                        existing_address,
                        true,
                    ),
                ],
            ),
            r is Ok ==> spec_frames_ordered(
                old(self).frames().len() as int,
                final(self).frames(),
                spec_broadcast_frame(
                    old(bus_config).bus,
                    dali_commands::DALI_DATA_TRANSFER_REGISTER0,
                    new_address,
                    false,
                ),
                spec_command_short_frame(
                    old(bus_config).bus,
                    dali_commands::DALI_SET_SHORT_ADDRESS,
                    existing_address,
                    true,
                ),
            ),
            r is Err ==> *final(bus_config) == *old(bus_config),
            r is Ok ==> r == Ok::<DaliBusResult, DaliManagerError>(DaliBusResult::NoReply),
            r is Ok ==> old(bus_config).same_except_channels(*final(bus_config)),
            r is Ok && old(bus_config).spec_has_channel(existing_address) ==> exists|i: int|
                {
                    &&& 0 <= i < old(bus_config).channels@.len()
                    &&& (#[trigger] old(bus_config).channels@[i]).short_address == existing_address
                    &&& final(bus_config).channels@ == if new_address != 0xff {
                        old(bus_config).channels@.remove(i).push(
                            (Channel {
                                short_address: new_address,
                                description: old(bus_config).channels@[i].description,
                            }),
                        )
                    } else {
                        old(bus_config).channels@.remove(i)
                    }
                },
            r is Ok && !old(bus_config).spec_has_channel(existing_address) && new_address != 0xff
                ==> final(bus_config).channels@.len() == old(bus_config).channels@.len() + 1
                && final(bus_config).channels@ == old(bus_config).channels@.push(
                (Channel {
                    short_address: new_address,
                    description: final(bus_config).channels@.last().description,
                }),
            ) && final(bus_config).channels@.last().description@ == text::spec_light_description(
                new_address,
            ),
            r is Ok && !old(bus_config).spec_has_channel(existing_address) && new_address == 0xff
                ==> final(bus_config).channels@ == old(bus_config).channels@,
    {
        if existing_address >= 64 {
            proof {
                lemma_appended_within_refl(
                    self.frames(),
                    set![
                        spec_broadcast_frame(
                            bus_config.bus,
                            dali_commands::DALI_DATA_TRANSFER_REGISTER0,
                            new_address,
                            false,
                        ),
                        spec_command_short_frame(
                            bus_config.bus,
                            dali_commands::DALI_SET_SHORT_ADDRESS,
                            existing_address,
                            true,
                        ),
                    ],
                );
            }
            return Err(DaliManagerError::ShortAddress(existing_address));
        }
        if new_address >= 64 && new_address != 0xff {
            proof {
                lemma_appended_within_refl(
                    self.frames(),
                    set![
                        spec_broadcast_frame(
                            bus_config.bus,
                            dali_commands::DALI_DATA_TRANSFER_REGISTER0,
                            new_address,
                            false,
                        ),
                        spec_command_short_frame(
                            bus_config.bus,
                            dali_commands::DALI_SET_SHORT_ADDRESS,
                            existing_address,
                            true,
                        ),
                    ],
                );
            }
            return Err(DaliManagerError::ShortAddress(new_address));
        }
        let bus = bus_config.bus;
        let ghost dtr_f = spec_broadcast_frame(
            bus,
            dali_commands::DALI_DATA_TRANSFER_REGISTER0,
            new_address,
            false,
        );
        let ghost set_f = spec_command_short_frame(
            bus,
            dali_commands::DALI_SET_SHORT_ADDRESS,
            existing_address,
            true,
        );
        let ghost all = set![
            spec_broadcast_frame(
                bus,
                dali_commands::DALI_DATA_TRANSFER_REGISTER0,
                new_address,
                false,
            ),
            spec_command_short_frame(
                bus,
                dali_commands::DALI_SET_SHORT_ADDRESS,
                existing_address,
                true,
            ),
        ];
        let sent = self.set_dtr(bus, new_address);
        proof {
            lemma_appended_within_widen(
                old(self).frames(),
                self.frames(),
                Set::empty().insert(
                    spec_broadcast_frame(
                        bus,
                        dali_commands::DALI_DATA_TRANSFER_REGISTER0,
                        new_address,
                        false,
                    ),
                ),
                all,
            );
        }
        if let Err(e) = sent {
            return Err(e);
        }
        let ghost p1 = self.frames();
        let sent = self.send_command_to_address(
            bus,
            dali_commands::DALI_SET_SHORT_ADDRESS,
            existing_address,
            true,
        );
        proof {
            lemma_push_appended(
                p1,
                self.frames(),
                spec_command_short_frame(
                    bus,
                    dali_commands::DALI_SET_SHORT_ADDRESS,
                    existing_address,
                    true,
                ),
            );
            lemma_appended_within_widen(
                p1,
                self.frames(),
                Set::empty().insert(
                    spec_command_short_frame(
                        bus,
                        dali_commands::DALI_SET_SHORT_ADDRESS,
                        existing_address,
                        true,
                    ),
                ),
                all,
            );
            lemma_appended_within_step(old(self).frames(), p1, self.frames(), all);
            let lo = old(self).frames().len() as int;
            assert(p1[lo] == dtr_f);
            assert(self.frames()[lo] == dtr_f);
            assert(self.frames()[p1.len() as int] == set_f);
            assert(spec_frames_ordered(lo, self.frames(), dtr_f, set_f));
        }
        if let Err(e) = sent {
            return Err(e);
        }
        let ghost pre = *bus_config;
        let removed = bus_config.remove_channel(existing_address);
        let ghost removed_g = removed;
        let ghost mid_channels = bus_config.channels@;
        let description = if let Some(existing_channel) = removed {
            existing_channel.description
        } else {
            text::light_description(new_address)
        };
        if new_address != 0xff {
            bus_config.channels.push(Channel { description, short_address: new_address });
        }
        proof {
            if pre.spec_has_channel(existing_address) {
                let i = choose|i: int|
                    0 <= i < pre.channels@.len() && removed_g == Some(
                        #[trigger] pre.channels@[i],
                    ) && pre.channels@[i].short_address == existing_address && mid_channels
                        == pre.channels@.remove(i);
                if new_address != 0xff {
                    assert(bus_config.channels@ == pre.channels@.remove(i).push(
                        (Channel {
                            short_address: new_address,
                            description: pre.channels@[i].description,
                        }),
                    ));
                } else {
                    assert(bus_config.channels@ == pre.channels@.remove(i));
                }
            }
        }
        Ok(DaliBusResult::NoReply)
    }

    /// Remove a light's short address: take it out of every group its
    /// device mask names (on the device and in the configuration), then
    /// clear the short address on the device and drop its channel.
    #[verifier::loop_isolation(false)]
    pub fn remove_short_address(&mut self, bus_config: &mut BusConfig, existing_address: u8) -> (r:
        Result<DaliBusResult, DaliManagerError>)
        requires
            old(bus_config).bus < old(self).bus_count(),
            old(bus_config).wf(),
        ensures
            final(self).bus_count() == old(self).bus_count(),
            final(bus_config).wf(),
            final(bus_config).description == old(bus_config).description,
            final(bus_config).status == old(bus_config).status,
            final(bus_config).bus == old(bus_config).bus,
            final(bus_config).groups@.len() == old(bus_config).groups@.len(),
            forall|k: int|
                0 <= k < old(bus_config).groups@.len() ==> (
                #[trigger] final(bus_config).groups@[k]).group_address == old(bus_config).groups@[k].group_address && final(bus_config).groups@[k].description == old(bus_config).groups@[k].description && spec_members_maybe_removed(
                    old(bus_config).groups@[k].members@,
                    final(bus_config).groups@[k].members@,
                    existing_address,
                ),
            r is Err ==> final(bus_config).channels@ == old(bus_config).channels@,
            r is Ok ==> !final(bus_config).spec_has_channel(existing_address),
            r is Ok ==> (final(bus_config).channels@ == old(bus_config).channels@ && !old(bus_config).spec_has_channel(existing_address)) || exists|i: int|
                0 <= i < old(bus_config).channels@.len() && (
                #[trigger] old(bus_config).channels@[i]).short_address == existing_address && final(bus_config).channels@ == old(bus_config).channels@.remove(i),
    {
        let bus = bus_config.bus;
        let groups = match self.query_group_membership(bus, existing_address) {
            Ok(m) => m,
            Err(e) => {
                return Err(e);
            },
        };
        let mut group_address: u8 = 0;
        while group_address < 16
            invariant
                group_address <= 16,
                self.bus_count() == old(self).bus_count(),
                bus_config.bus == old(bus_config).bus,
                bus_config.description == old(bus_config).description,
                bus_config.status == old(bus_config).status,
                bus_config.channels == old(bus_config).channels,
                bus_config.wf(),
                bus_config.groups@.len() == old(bus_config).groups@.len(),
                forall|k: int|
                    0 <= k < old(bus_config).groups@.len() ==> (
                    #[trigger] bus_config.groups@[k]).group_address == old(bus_config).groups@[k].group_address && bus_config.groups@[k].description == old(bus_config).groups@[k].description && spec_members_maybe_removed(
                        old(bus_config).groups@[k].members@,
                        bus_config.groups@[k].members@,
                        existing_address,
                    ),
                forall|k: int|
                    0 <= k < bus_config.groups@.len() && (
                    #[trigger] bus_config.groups@[k]).group_address >= group_address
                        ==> bus_config.groups@[k].members@ == old(bus_config).groups@[k].members@,
                existing_address < 64,
            decreases 16 - group_address,
        {
            if group_mask_has(groups, group_address) {
                let sent = self.remove_from_group(bus, group_address, existing_address);
                if let Err(e) = sent {
                    return Err(e);
                }
                let ghost pre = *bus_config;
                bus_config.remove_from_group(group_address, existing_address);
                proof {
                    lemma_groups_ok_maybe_removed(
                        pre.groups@,
                        bus_config.groups@,
                        existing_address,
                    );
                    assert forall|k: int|
                        0 <= k < old(bus_config).groups@.len() implies spec_members_maybe_removed(
                        old(bus_config).groups@[k].members@,
                        #[trigger] bus_config.groups@[k].members@,
                        existing_address,
                    ) by {
                        assert(spec_members_maybe_removed(
                            pre.groups@[k].members@,
                            bus_config.groups@[k].members@,
                            existing_address,
                        ));
                        assert(pre.groups@[k].members@ == old(bus_config).groups@[k].members@
                            || bus_config.groups@[k].members@ == pre.groups@[k].members@);
                    }
                }
            }
            group_address += 1;
        }
        let ghost pre_change = *bus_config;
        let result = self.change_short_address(bus_config, existing_address, 0xff);
        proof {
            if result is Ok {
                if pre_change.spec_has_channel(existing_address) {
                    let i = choose|i: int|
                        {
                            &&& 0 <= i < pre_change.channels@.len()
                            &&& (#[trigger] pre_change.channels@[i]).short_address
                                == existing_address
                            &&& forall|k: int|
                                0 <= k < i ==> (#[trigger] pre_change.channels@[k]).short_address
                                    != existing_address
                            &&& bus_config.channels@ == pre_change.channels@.remove(i)
                        };
                    lemma_channels_ok_remove(pre_change.channels@, i);
                    assert(!bus_config.spec_has_channel(existing_address)) by {
                        if bus_config.spec_has_channel(existing_address) {
                            let m = choose|m: int|
                                0 <= m < bus_config.channels@.len() && (
                                #[trigger] bus_config.channels@[m]).short_address
                                    == existing_address;
                            let m0 = if m < i {
                                m
                            } else {
                                m + 1
                            };
                            assert(bus_config.channels@[m] == pre_change.channels@[m0]);
                        }
                    }
                }
            }
        }
        result
    }
}



/// One frame appended means an extension by that frame alone.
pub proof fn lemma_push_appended(old_fs: Seq<DaliFrame>, new_fs: Seq<DaliFrame>, f: DaliFrame)
    requires
        new_fs == old_fs.push(f),
    ensures
        spec_appended_only(old_fs, new_fs, f),
{
    assert(new_fs.subrange(0, old_fs.len() as int) =~= old_fs);
}

/// An extension within a smaller set is one within any larger set.
pub proof fn lemma_appended_within_widen(
    old_fs: Seq<DaliFrame>,
    new_fs: Seq<DaliFrame>,
    s1: Set<DaliFrame>,
    s2: Set<DaliFrame>,
)
    requires
        spec_appended_within(old_fs, new_fs, s1),
        s1.subset_of(s2),
    ensures
        spec_appended_within(old_fs, new_fs, s2),
{
}

/// An unchanged history is an extension within any set.
pub proof fn lemma_appended_within_refl(fs: Seq<DaliFrame>, allowed: Set<DaliFrame>)
    ensures
        spec_appended_within(fs, fs, allowed),
{
    assert(fs.subrange(0, fs.len() as int) =~= fs);
}

/// The first bytes the special commands broadcast, and the fact that
/// the addressed command codes fit in one byte.
pub proof fn lemma_command_code_bytes()
    ensures
        spec_broadcast_b1(dali_commands::DALI_TERMINATE) == 0xa1,
        spec_broadcast_b1(dali_commands::DALI_DATA_TRANSFER_REGISTER0) == 0xa3,
        spec_broadcast_b1(dali_commands::DALI_INITIALISE) == 0xa5,
        spec_broadcast_b1(dali_commands::DALI_RANDOMISE) == 0xa7,
        spec_broadcast_b1(dali_commands::DALI_COMPARE) == 0xa9,
        spec_broadcast_b1(dali_commands::DALI_WITHDRAW) == 0xab,
        spec_broadcast_b1(dali_commands::DALI_SEARCHADDRH) == 0xb1,
        spec_broadcast_b1(dali_commands::DALI_SEARCHADDRM) == 0xb3,
        spec_broadcast_b1(dali_commands::DALI_SEARCHADDRL) == 0xb5,
        spec_broadcast_b1(dali_commands::DALI_PROGRAM_SHORT_ADDRESS) == 0xb7,
        (dali_commands::DALI_SET_FADE_TIME & 0xff) == 0x2e,
        (dali_commands::DALI_SET_EXTENDED_FADE_TIME & 0xff) == 0x30,
        (dali_commands::DALI_SET_SHORT_ADDRESS & 0xff) == 0x80,
        (dali_commands::DALI_QUERY_STATUS & 0xff) == 0x90,
        (dali_commands::DALI_QUERY_GROUPS_0_7 & 0xff) == 0xc0,
        (dali_commands::DALI_QUERY_GROUPS_8_15 & 0xff) == 0xc1,
{
    assert(0x1a1u16 & 0x100 != 0 && 0x1a1u16 & 0xff == 0xa1) by (bit_vector);
    assert(0x1a3u16 & 0x100 != 0 && 0x1a3u16 & 0xff == 0xa3) by (bit_vector);
    assert(0x1a5u16 & 0x100 != 0 && 0x1a5u16 & 0xff == 0xa5) by (bit_vector);
    assert(0x1a7u16 & 0x100 != 0 && 0x1a7u16 & 0xff == 0xa7) by (bit_vector);
    assert(0x1a9u16 & 0x100 != 0 && 0x1a9u16 & 0xff == 0xa9) by (bit_vector);
    assert(0x1abu16 & 0x100 != 0 && 0x1abu16 & 0xff == 0xab) by (bit_vector);
    assert(0x1b1u16 & 0x100 != 0 && 0x1b1u16 & 0xff == 0xb1) by (bit_vector);
    assert(0x1b3u16 & 0x100 != 0 && 0x1b3u16 & 0xff == 0xb3) by (bit_vector);
    assert(0x1b5u16 & 0x100 != 0 && 0x1b5u16 & 0xff == 0xb5) by (bit_vector);
    assert(0x1b7u16 & 0x100 != 0 && 0x1b7u16 & 0xff == 0xb7) by (bit_vector);
    assert(0x2eu16 & 0xff == 0x2e) by (bit_vector);
    assert(0x30u16 & 0xff == 0x30) by (bit_vector);
    assert(0x80u16 & 0xff == 0x80) by (bit_vector);
    assert(0x90u16 & 0xff == 0x90) by (bit_vector);
    assert(0xc0u16 & 0xff == 0xc0) by (bit_vector);
    assert(0xc1u16 & 0xff == 0xc1) by (bit_vector);
}

/// Whether `mask` has the bit of `group_address` set.
pub open spec fn spec_mask_has(mask: u16, group_address: u8) -> bool {
    mask & (1u16 << group_address) != 0
}

/// Setting one group bit adds exactly that group to a mask.
pub proof fn lemma_mask_set_bit(mask: u16, set_bit: u8, g: u8)
    requires
        set_bit < 16,
        g < 16,
    ensures
        spec_mask_has(mask | (1u16 << set_bit), g) == (g == set_bit || spec_mask_has(mask, g)),
{
    assert(set_bit < 16 && g < 16 ==> (((mask | (1u16 << set_bit)) & (1u16 << g) != 0) == (g
        == set_bit || mask & (1u16 << g) != 0))) by (bit_vector);
}

/// An all-zero mask lists no group.
pub proof fn lemma_mask_empty(g: u8)
    requires
        g < 16,
    ensures
        !spec_mask_has(0u16, g),
{
    assert(g < 16 ==> 0u16 & (1u16 << g) == 0) by (bit_vector);
}

/// Combine the two group-membership reply bytes into one 16-bit mask.
pub fn combine_group_mask(groups_0to7: u8, groups_8to15: u8) -> (m: u16)
    ensures
        m == 256 * (groups_8to15 as u16) + groups_0to7 as u16,
{
    256 * (groups_8to15 as u16) + groups_0to7 as u16
}

/// Whether a 16-bit membership mask lists `group_address`.
pub fn group_mask_has(mask: u16, group_address: u8) -> (r: bool)
    requires
        group_address < 16,
    ensures
        r == spec_mask_has(mask, group_address),
{
    mask & (1u16 << group_address) != 0
}

/// The error text of a protocol failure.
pub open spec fn spec_manager_error_message(e: DaliManagerError) -> Seq<char> {
    match e {
        DaliManagerError::ShortAddress(a) => "Invalid short address: "@ + text::spec_dec_chars(
            a as int,
        ),
        DaliManagerError::GroupAddress(g) => "Invalid group address: "@ + text::spec_dec_chars(
            g as int,
        ),
        DaliManagerError::Command(c) => "Invalid command: "@ + text::spec_dec_chars(c as int),
        DaliManagerError::FadeTime(f) => "Invalid fade time: "@ + text::spec_dec_chars(f as int),
        DaliManagerError::UnexpectedStatus(_) => "Unexpected bus result"@,
        DaliManagerError::Pattern => "Pattern (regex) error"@,
        DaliManagerError::GroupAddFailed(a, g) => "Add to group failed (light "@
            + text::spec_dec_chars(a as int) + " group "@ + text::spec_dec_chars(g as int) + ")"@,
        DaliManagerError::GroupRemoveFailed(a, g) => "Remove from group failed (light "@
            + text::spec_dec_chars(a as int) + " group "@ + text::spec_dec_chars(g as int) + ")"@,
        DaliManagerError::NoResult => "No value was returned from the DALI bus"@,
        DaliManagerError::Transport => "DALI transport error"@,
    }
}

impl DaliManagerError {
    /// Render this error as text.
    pub fn message(&self) -> (s: String)
        ensures
            s@ == spec_manager_error_message(*self),
    {
        match self {
            DaliManagerError::ShortAddress(a) => {
                let mut s = String::from_str("Invalid short address: ");
                s.append(text::dec_string(*a as u64).as_str());
                s
            },
            DaliManagerError::GroupAddress(g) => {
                let mut s = String::from_str("Invalid group address: ");
                s.append(text::dec_string(*g as u64).as_str());
                s
            },
            DaliManagerError::Command(c) => {
                let mut s = String::from_str("Invalid command: ");
                s.append(text::dec_string(*c as u64).as_str());
                s
            },
            DaliManagerError::FadeTime(f) => {
                let mut s = String::from_str("Invalid fade time: ");
                s.append(text::dec_string(*f as u64).as_str());
                s
            },
            DaliManagerError::UnexpectedStatus(_) => String::from_str("Unexpected bus result"),
            DaliManagerError::Pattern => String::from_str("Pattern (regex) error"),
            DaliManagerError::GroupAddFailed(a, g) => {
                let mut s = String::from_str("Add to group failed (light ");
                s.append(text::dec_string(*a as u64).as_str());
                s.append(" group ");
                s.append(text::dec_string(*g as u64).as_str());
                s.append(")");
                s
            },
            DaliManagerError::GroupRemoveFailed(a, g) => {
                let mut s = String::from_str("Remove from group failed (light ");
                s.append(text::dec_string(*a as u64).as_str());
                s.append(" group ");
                s.append(text::dec_string(*g as u64).as_str());
                s.append(")");
                s
            },
            DaliManagerError::NoResult => String::from_str(
                "No value was returned from the DALI bus",
            ),
            DaliManagerError::Transport => String::from_str("DALI transport error"),
        }
    }
}

} // verus!
