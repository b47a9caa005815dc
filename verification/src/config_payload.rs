//! Persisted configuration model: a named controller owning buses, each
//! with its channels (lights) and groups.  Invariants: channel short
//! addresses are unique and below 64 within a bus, group addresses are
//! unique and below 16, and the members of a group are unique.

use vstd::prelude::*;

use crate::text;

verus! {

/// Cached health of one bus.
#[derive(Debug, Clone, Copy, PartialEq, Eq, Structural)]
pub enum BusStatus {
    Active,
    NoPower,
    Overloaded,
    Unknown,
}

/// One light: its short address and a human description.
#[derive(Debug, Clone)]
pub struct Channel {
    pub short_address: u8,
    pub description: String,
}

/// One group: its address, a human description, and the short addresses
/// of its members.
#[derive(Debug, Clone)]
pub struct Group {
    pub group_address: u8,
    pub description: String,
    pub members: Vec<u8>,
}

/// One bus: its number, cached status, channels and groups.
#[derive(Debug, Clone)]
pub struct BusConfig {
    pub description: String,
    pub status: BusStatus,
    pub bus: usize,
    pub channels: Vec<Channel>,
    pub groups: Vec<Group>,
}

/// The whole controller configuration.
#[derive(Debug, Clone)]
pub struct DaliConfig {
    pub name: String,
    pub buses: Vec<BusConfig>,
}

impl BusConfig {
    /// Some channel of this bus has short address `a`.
    pub open spec fn spec_has_channel(self, a: u8) -> bool {
        exists|i: int|
            0 <= i < self.channels@.len() && (#[trigger] self.channels@[i]).short_address == a
    }

    /// Some group of this bus has group address `g`.
    pub open spec fn spec_has_group(self, g: u8) -> bool {
        exists|i: int|
            0 <= i < self.groups@.len() && (#[trigger] self.groups@[i]).group_address == g
    }

    /// The configuration lists `a` as a member of group `g`.
    pub open spec fn spec_member_of(self, g: u8, a: u8) -> bool {
        exists|i: int|
            0 <= i < self.groups@.len() && (#[trigger] self.groups@[i]).group_address == g
                && self.groups@[i].members@.contains(a)
    }

    /// Channel addresses are in range and unique.
    pub open spec fn channels_wf(self) -> bool {
        &&& forall|i: int|
            0 <= i < self.channels@.len() ==> (#[trigger] self.channels@[i]).short_address < 64
        &&& forall|i: int, j: int|
            0 <= i < j < self.channels@.len() ==> (#[trigger] self.channels@[i]).short_address
                != (#[trigger] self.channels@[j]).short_address
    }

    /// Group addresses are in range and unique, and each group lists
    /// every member at most once.
    pub open spec fn groups_wf(self) -> bool {
        &&& forall|i: int|
            0 <= i < self.groups@.len() ==> (#[trigger] self.groups@[i]).group_address < 16
        &&& forall|i: int, j: int|
            0 <= i < j < self.groups@.len() ==> (#[trigger] self.groups@[i]).group_address
                != (#[trigger] self.groups@[j]).group_address
        &&& forall|i: int, p: int, q: int|
            0 <= i < self.groups@.len() && 0 <= p < q < self.groups@[i].members@.len()
                ==> #[trigger] self.groups@[i].members@[p] != #[trigger] self.groups@[i].members@[q]
    }

    /// The bus invariant.
    pub open spec fn wf(self) -> bool {
        self.channels_wf() && self.groups_wf()
    }

    /// Every group member refers to an existing channel of this bus.
    pub open spec fn members_closed(self) -> bool {
        forall|i: int, j: int|
            0 <= i < self.groups@.len() && 0 <= j < self.groups@[i].members@.len()
                ==> self.spec_has_channel(#[trigger] self.groups@[i].members@[j])
    }

    /// Everything but the channel list agrees between `self` and `other`.
    pub open spec fn same_except_channels(self, other: BusConfig) -> bool {
        &&& self.description == other.description
        &&& self.status == other.status
        &&& self.bus == other.bus
        &&& self.groups == other.groups
    }

    /// Everything but the group list agrees between `self` and `other`.
    pub open spec fn same_except_groups(self, other: BusConfig) -> bool {
        &&& self.description == other.description
        &&& self.status == other.status
        &&& self.bus == other.bus
        &&& self.channels == other.channels
    }

    /// An empty bus configuration with a default description.
    pub fn new(bus_number: usize, status: BusStatus) -> (r: BusConfig)
        requires
            bus_number < 0xffff,
        ensures
            r.description@ == text::spec_bus_description(bus_number as int),
            r.status == status,
            r.bus == bus_number,
            r.channels@.len() == 0,
            r.groups@.len() == 0,
            r.wf(),
            r.members_closed(),
    {
        BusConfig {
            description: text::bus_description(bus_number),
            status,
            bus: bus_number,
            channels: Vec::new(),
            groups: Vec::new(),
        }
    }

    /// Index of the first channel with address `short_address`.
    pub fn get_channel_index(&self, short_address: u8) -> (r: Option<usize>)
        ensures
            match r {
                Some(i) => 0 <= i < self.channels@.len() && self.channels@[i as int].short_address
                    == short_address && forall|k: int|
                    0 <= k < i ==> (#[trigger] self.channels@[k]).short_address != short_address,
                None => !self.spec_has_channel(short_address),
            },
    {
        let n = self.channels.len();
        let mut i: usize = 0;
        while i < n
            invariant
                i <= n,
                n == self.channels@.len(),
                forall|k: int|
                    0 <= k < i ==> (#[trigger] self.channels@[k]).short_address != short_address,
            decreases n - i,
        {
            if self.channels[i].short_address == short_address {
                return Some(i);
            }
            i += 1;
        }
        None
    }

    /// The channel with address `channel`, if the bus has one.
    pub fn find_member(&self, channel: u8) -> (r: Option<&Channel>)
        ensures
            match r {
                Some(c) => self.spec_has_channel(channel) && c.short_address == channel && exists|
                    i: int,
                |
                    0 <= i < self.channels@.len() && *c == #[trigger] self.channels@[i],
                None => !self.spec_has_channel(channel),
            },
    {
        match self.get_channel_index(channel) {
            Some(index) => {
                let c = &self.channels[index];
                proof {
                    assert(*c == self.channels@[index as int]);
                }
                Some(c)
            },
            None => None,
        }
    }

    /// Remove the first channel with address `short_address` and hand it
    /// back; the rest of the bus is untouched.
    pub fn remove_channel(&mut self, short_address: u8) -> (r: Option<Channel>)
        ensures
            old(self).same_except_channels(*final(self)),
            match r {
                Some(c) => exists|i: int|
                    0 <= i < old(self).channels@.len() && c == #[trigger] old(self).channels@[i]
                        && c.short_address == short_address && final(self).channels@ == old(
                        self,
                    ).channels@.remove(i),
                None => !old(self).spec_has_channel(short_address) && final(self).channels@ == old(
                    self,
                ).channels@,
            },
    {
        match self.get_channel_index(short_address) {
            Some(index) => {
                let c = self.channels.remove(index);
                proof {
                    assert(c == old(self).channels@[index as int]);
                }
                Some(c)
            },
            None => None,
        }
    }

    /// Index of the first group with address `group_address`.
    pub fn get_group_index(&self, group_address: u8) -> (r: Option<usize>)
        ensures
            match r {
                Some(i) => 0 <= i < self.groups@.len() && self.groups@[i as int].group_address
                    == group_address && forall|k: int|
                    0 <= k < i ==> (#[trigger] self.groups@[k]).group_address != group_address,
                None => !self.spec_has_group(group_address),
            },
    {
        let n = self.groups.len();
        let mut i: usize = 0;
        while i < n
            invariant
                i <= n,
                n == self.groups@.len(),
                forall|k: int|
                    0 <= k < i ==> (#[trigger] self.groups@[k]).group_address != group_address,
            decreases n - i,
        {
            if self.groups[i].group_address == group_address {
                return Some(i);
            }
            i += 1;
        }
        None
    }

    /// The lowest unused short address above 0, if one is free.
    pub fn get_unused_short_address(&self) -> (r: Option<u8>)
        ensures
            match r {
                Some(a) => 1 <= a < 64 && !self.spec_has_channel(a) && forall|b: u8|
                    1 <= b < a ==> self.spec_has_channel(b),
                None => forall|b: u8| 1 <= b < 64 ==> self.spec_has_channel(b),
            },
    {
        let mut a: u8 = 1;
        while a < 64
            invariant
                1 <= a <= 64,
                forall|b: u8| 1 <= b < a ==> self.spec_has_channel(b),
            decreases 64 - a,
        {
            if self.get_channel_index(a).is_none() {
                return Some(a);
            }
            a += 1;
        }
        None
    }

    /// The lowest unused group address above 0, if one is free.
    pub fn get_unused_group_address(&self) -> (r: Option<u8>)
        ensures
            match r {
                Some(g) => 1 <= g < 16 && !self.spec_has_group(g) && forall|h: u8|
                    1 <= h < g ==> self.spec_has_group(h),
                None => forall|h: u8| 1 <= h < 16 ==> self.spec_has_group(h),
            },
    {
        let mut g: u8 = 1;
        while g < 16
            invariant
                1 <= g <= 16,
                forall|h: u8| 1 <= h < g ==> self.spec_has_group(h),
            decreases 16 - g,
        {
            if self.get_group_index(g).is_none() {
                return Some(g);
            }
            g += 1;
        }
        None
    }

    /// Remove `short_address` from the member list of group
    /// `group_address`; `true` iff a membership was removed.
    pub fn remove_from_group(&mut self, group_address: u8, short_address: u8) -> (r: bool)
        requires
            old(self).groups_wf(),
        ensures
            old(self).same_except_groups(*final(self)),
            final(self).groups@.len() == old(self).groups@.len(),
            !r ==> *final(self) == *old(self) && !(old(self).spec_has_group(group_address)
                && old(self).spec_member_of(group_address, short_address)),
            r ==> exists|i: int, j: int|
                {
                    &&& 0 <= i < old(self).groups@.len()
                    &&& (#[trigger] old(self).groups@[i]).group_address == group_address
                    &&& 0 <= j < old(self).groups@[i].members@.len()
                    &&& #[trigger] old(self).groups@[i].members@[j] == short_address
                    &&& final(self).groups@[i].members@ == old(self).groups@[i].members@.remove(j)
                    &&& final(self).groups@[i].group_address == old(self).groups@[i].group_address
                    &&& final(self).groups@[i].description == old(self).groups@[i].description
                    &&& forall|k: int|
                        0 <= k < old(self).groups@.len() && k != i
                            ==> #[trigger] final(self).groups@[k] == old(self).groups@[k]
                },
    {
        let group_index = match self.get_group_index(group_address) {
            Some(i) => i,
            None => {
                return false;
            },
        };
        let m = self.groups[group_index].members.len();
        let mut j: usize = 0;
        while j < m
            invariant
                j <= m,
                *self == *old(self),
                group_index < self.groups@.len(),
                self.groups@[group_index as int].group_address == group_address,
                m == self.groups@[group_index as int].members@.len(),
                forall|k: int|
                    0 <= k < j ==> self.groups@[group_index as int].members@[k] != short_address,
            decreases m - j,
        {
            if self.groups[group_index].members[j] == short_address {
                let group = &mut self.groups[group_index];
                group.members.remove(j);
                proof {
                    assert(final(self).groups@ =~= old(self).groups@.update(
                        group_index as int,
                        *final(group),
                    ));
                }
                return true;
            }
            j += 1;
        }
        proof {
            let gi = group_index as int;
            assert(!old(self).spec_member_of(group_address, short_address)) by {
                if old(self).spec_member_of(group_address, short_address) {
                    let i = choose|i: int|
                        0 <= i < old(self).groups@.len() && (
                        #[trigger] old(self).groups@[i]).group_address == group_address && old(
                            self,
                        ).groups@[i].members@.contains(short_address);
                    if i != gi {
                        if i < gi {
                            assert(old(self).groups@[i].group_address != group_address);
                        } else {
                            assert(old(self).groups@[gi].group_address != old(
                                self,
                            ).groups@[i].group_address);
                        }
                    } else {
                        let k = choose|k: int|
                            0 <= k < old(self).groups@[gi].members@.len() && old(
                                self,
                            ).groups@[gi].members@[k] == short_address;
                        assert(old(self).groups@[gi].members@[k] != short_address);
                    }
                }
            }
        }
        false
    }
}

impl DaliConfig {
    /// All buses are well formed and numbered by their position.
    pub open spec fn wf(self) -> bool {
        forall|i: int|
            0 <= i < self.buses@.len() ==> (#[trigger] self.buses@[i]).wf() && self.buses@[i].bus
                == i
    }

    /// An empty configuration for a controller called `name`.
    pub fn new(name: &str) -> (r: DaliConfig)
        ensures
            r.name@ == name@,
            r.buses@.len() == 0,
            r.wf(),
    {
        DaliConfig { name: String::from_str(name), buses: Vec::new() }
    }
}

/// `new_m` is `old_m`, or `old_m` with one occurrence of `a` removed.
pub open spec fn spec_members_maybe_removed(old_m: Seq<u8>, new_m: Seq<u8>, a: u8) -> bool {
    new_m == old_m || exists|j: int|
        0 <= j < old_m.len() && old_m[j] == a && new_m == old_m.remove(j)
}

/// Distinctness of a byte sequence survives removing one element.
pub proof fn lemma_distinct_remove(s: Seq<u8>, j: int)
    requires
        0 <= j < s.len(),
        forall|p: int, q: int| 0 <= p < q < s.len() ==> s[p] != s[q],
    ensures
        forall|p: int, q: int|
            0 <= p < q < s.remove(j).len() ==> s.remove(j)[p] != s.remove(j)[q],
{
    let t = s.remove(j);
    assert forall|p: int, q: int| 0 <= p < q < t.len() implies t[p] != t[q] by {
        let p0 = if p < j { p } else { p + 1 };
        let q0 = if q < j { q } else { q + 1 };
        assert(t[p] == s[p0]);
        assert(t[q] == s[q0]);
    }
}

/// Channel-list well-formedness survives removing a channel.
pub proof fn lemma_channels_ok_remove(s: Seq<Channel>, i: int)
    requires
        0 <= i < s.len(),
        forall|k: int| 0 <= k < s.len() ==> (#[trigger] s[k]).short_address < 64,
        forall|p: int, q: int|
            0 <= p < q < s.len() ==> (#[trigger] s[p]).short_address != (
            #[trigger] s[q]).short_address,
    ensures
        forall|k: int| 0 <= k < s.remove(i).len() ==> (#[trigger] s.remove(i)[k]).short_address < 64,
        forall|p: int, q: int|
            0 <= p < q < s.remove(i).len() ==> (#[trigger] s.remove(i)[p]).short_address != (
            #[trigger] s.remove(i)[q]).short_address,
{
    let t = s.remove(i);
    assert forall|k: int| 0 <= k < t.len() implies (#[trigger] t[k]).short_address < 64 by {
        let k0 = if k < i { k } else { k + 1 };
        assert(t[k] == s[k0]);
    }
    assert forall|p: int, q: int|
        0 <= p < q < t.len() implies (#[trigger] t[p]).short_address != (
    #[trigger] t[q]).short_address by {
        let p0 = if p < i { p } else { p + 1 };
        let q0 = if q < i { q } else { q + 1 };
        assert(t[p] == s[p0]);
        assert(t[q] == s[q0]);
    }
}

/// Group-list well-formedness survives removing one occurrence of a
/// member from each group.
pub proof fn lemma_groups_ok_maybe_removed(s: Seq<Group>, t: Seq<Group>, a: u8)
    requires
        t.len() == s.len(),
        forall|k: int| 0 <= k < s.len() ==> (#[trigger] s[k]).group_address < 16,
        forall|p: int, q: int|
            0 <= p < q < s.len() ==> (#[trigger] s[p]).group_address != (
            #[trigger] s[q]).group_address,
        forall|k: int, p: int, q: int|
            0 <= k < s.len() && 0 <= p < q < s[k].members@.len() ==> #[trigger] s[k].members@[p]
                != #[trigger] s[k].members@[q],
        forall|k: int|
            0 <= k < s.len() ==> (#[trigger] t[k]).group_address == s[k].group_address
                && spec_members_maybe_removed(s[k].members@, t[k].members@, a),
    ensures
        forall|k: int| 0 <= k < t.len() ==> (#[trigger] t[k]).group_address < 16,
        forall|p: int, q: int|
            0 <= p < q < t.len() ==> (#[trigger] t[p]).group_address != (
            #[trigger] t[q]).group_address,
        forall|k: int, p: int, q: int|
            0 <= k < t.len() && 0 <= p < q < t[k].members@.len() ==> #[trigger] t[k].members@[p]
                != #[trigger] t[k].members@[q],
{
    assert forall|k: int, p: int, q: int|
        0 <= k < t.len() && 0 <= p < q < t[k].members@.len() implies #[trigger] t[k].members@[p]
        != #[trigger] t[k].members@[q] by {
        if t[k].members@ != s[k].members@ {
            let j = choose|j: int|
                0 <= j < s[k].members@.len() && s[k].members@[j] == a
                    && t[k].members@ == s[k].members@.remove(j);
            lemma_distinct_remove(s[k].members@, j);
        }
    }
}

/// Changing a short address from `a` to an unused `b` and back restores
/// the channel list, as a multiset: the same lights with the same
/// descriptions, the renamed channel returning with its description.
pub proof fn lemma_change_short_address_round_trip(
    s0: Seq<Channel>,
    s1: Seq<Channel>,
    s2: Seq<Channel>,
    i: int,
    j: int,
    a: u8,
    b: u8,
)
    requires
        0 <= i < s0.len(),
        s0[i].short_address == a,
        forall|k: int| 0 <= k < s0.len() && k != i ==> (#[trigger] s0[k]).short_address != b,
        s1 == s0.remove(i).push(
            (Channel { short_address: b, description: s0[i].description }),
        ),
        0 <= j < s1.len(),
        s1[j].short_address == b,
        s2 == s1.remove(j).push(
            (Channel { short_address: a, description: s1[j].description }),
        ),
        a != b,
    ensures
        s2.to_multiset() == s0.to_multiset(),
{
    broadcast use vstd::seq_lib::group_to_multiset_ensures;

    let d = s0[i].description;
    let last = s1.len() - 1;
    assert(s1[last] == (Channel { short_address: b, description: d }));
    assert forall|k: int| 0 <= k < last implies (#[trigger] s1[k]).short_address != b by {
        assert(s1[k] == s0.remove(i)[k]);
        let k0 = if k < i { k } else { k + 1 };
        assert(s0.remove(i)[k] == s0[k0]);
    }
    assert(j == last);
    assert(s1.remove(last) =~= s0.remove(i));
    assert(s1[j].description == d);
    assert((Channel { short_address: a, description: s1[j].description }) == s0[i]);
    assert(s2 == s0.remove(i).push(s0[i]));
    assert(s0.remove(i).to_multiset() =~= s0.to_multiset().remove(s0[i]));
    assert(s2.to_multiset() =~= s0.remove(i).to_multiset().insert(s0[i]));
    assert(s0.to_multiset().count(s0[i]) > 0);
    assert(s2.to_multiset() =~= s0.to_multiset());
}

/// Whether a byte vector contains `a`.
pub fn vec_contains(v: &Vec<u8>, a: u8) -> (r: bool)
    ensures
        r == v@.contains(a),
{
    let n = v.len();
    let mut i: usize = 0;
    while i < n
        invariant
            i <= n,
            n == v@.len(),
            forall|k: int| 0 <= k < i ==> v@[k] != a,
        decreases n - i,
    {
        if v[i] == a {
            return true;
        }
        i += 1;
    }
    false
}

/// Distinct elements stay distinct after pushing a value not present.
pub proof fn lemma_unique_push(s: Seq<u8>, a: u8)
    requires
        forall|p: int, q: int| 0 <= p < q < s.len() ==> s[p] != s[q],
        !s.contains(a),
    ensures
        forall|p: int, q: int| 0 <= p < q < s.push(a).len() ==> s.push(a)[p] != s.push(a)[q],
{
    let t = s.push(a);
    assert forall|p: int, q: int| 0 <= p < q < t.len() implies t[p] != t[q] by {
        if q == s.len() {
            assert(t[p] == s[p]);
            assert(s.contains(s[p]));
        }
    }
}

/// Removing the only occurrence of `a` from a distinct sequence leaves
/// no occurrence.
pub proof fn lemma_unique_remove_not_contains(s: Seq<u8>, j: int, a: u8)
    requires
        0 <= j < s.len(),
        s[j] == a,
        forall|p: int, q: int| 0 <= p < q < s.len() ==> s[p] != s[q],
    ensures
        !s.remove(j).contains(a),
{
    let t = s.remove(j);
    if t.contains(a) {
        let p = choose|p: int| 0 <= p < t.len() && t[p] == a;
        let p0 = if p < j {
            p
        } else {
            p + 1
        };
        assert(t[p] == s[p0]);
    }
}

/// Removing one element changes no other value's presence.
pub proof fn lemma_remove_other_contains(s: Seq<u8>, j: int, x: u8)
    requires
        0 <= j < s.len(),
        x != s[j],
    ensures
        s.remove(j).contains(x) == s.contains(x),
{
    let t = s.remove(j);
    if t.contains(x) {
        let p = choose|p: int| 0 <= p < t.len() && t[p] == x;
        let p0 = if p < j {
            p
        } else {
            p + 1
        };
        assert(t[p] == s[p0]);
        assert(s.contains(x));
    }
    if s.contains(x) {
        let p = choose|p: int| 0 <= p < s.len() && s[p] == x;
        let p1 = if p < j {
            p
        } else {
            p - 1
        };
        assert(t[p1] == s[p]);
        assert(t.contains(x));
    }
}

/// Pushing a value makes it present and changes no other presence.
pub proof fn lemma_push_contains(s: Seq<u8>, a: u8, x: u8)
    ensures
        s.push(a).contains(a),
        x != a ==> s.push(a).contains(x) == s.contains(x),
{
    assert(s.push(a)[s.len() as int] == a);
    if x != a {
        if s.push(a).contains(x) {
            let p = choose|p: int| 0 <= p < s.push(a).len() && s.push(a)[p] == x;
            assert(s[p] == x);
        }
        if s.contains(x) {
            let p = choose|p: int| 0 <= p < s.len() && s[p] == x;
            assert(s.push(a)[p] == x);
        }
    }
}

/// Group-list well-formedness survives removing one group.
pub proof fn lemma_groups_ok_remove(s: Seq<Group>, i: int)
    requires
        0 <= i < s.len(),
        forall|k: int| 0 <= k < s.len() ==> (#[trigger] s[k]).group_address < 16,
        forall|p: int, q: int|
            0 <= p < q < s.len() ==> (#[trigger] s[p]).group_address != (
            #[trigger] s[q]).group_address,
        forall|k: int, p: int, q: int|
            0 <= k < s.len() && 0 <= p < q < s[k].members@.len() ==> #[trigger] s[k].members@[p]
                != #[trigger] s[k].members@[q],
    ensures
        forall|k: int| 0 <= k < s.remove(i).len() ==> (#[trigger] s.remove(i)[k]).group_address < 16,
        forall|p: int, q: int|
            0 <= p < q < s.remove(i).len() ==> (#[trigger] s.remove(i)[p]).group_address != (
            #[trigger] s.remove(i)[q]).group_address,
        forall|k: int, p: int, q: int|
            0 <= k < s.remove(i).len() && 0 <= p < q < s.remove(i)[k].members@.len()
                ==> #[trigger] s.remove(i)[k].members@[p] != #[trigger] s.remove(i)[k].members@[q],
{
    let t = s.remove(i);
    assert forall|k: int| 0 <= k < t.len() implies (#[trigger] t[k]).group_address < 16 by {
        let k0 = if k < i { k } else { k + 1 };
        assert(t[k] == s[k0]);
    }
    assert forall|p: int, q: int|
        0 <= p < q < t.len() implies (#[trigger] t[p]).group_address != (
    #[trigger] t[q]).group_address by {
        let p0 = if p < i { p } else { p + 1 };
        let q0 = if q < i { q } else { q + 1 };
        assert(t[p] == s[p0]);
        assert(t[q] == s[q0]);
    }
    assert forall|k: int, p: int, q: int|
        0 <= k < t.len() && 0 <= p < q < t[k].members@.len() implies #[trigger] t[k].members@[p]
        != #[trigger] t[k].members@[q] by {
        let k0 = if k < i { k } else { k + 1 };
        assert(t[k] == s[k0]);
    }
}

/// Channel-list well-formedness survives appending a fresh channel.
pub proof fn lemma_channels_ok_push(s: Seq<Channel>, c: Channel)
    requires
        forall|k: int| 0 <= k < s.len() ==> (#[trigger] s[k]).short_address < 64,
        forall|p: int, q: int|
            0 <= p < q < s.len() ==> (#[trigger] s[p]).short_address != (
            #[trigger] s[q]).short_address,
        c.short_address < 64,
        forall|k: int| 0 <= k < s.len() ==> (#[trigger] s[k]).short_address != c.short_address,
    ensures
        forall|k: int| 0 <= k < s.push(c).len() ==> (#[trigger] s.push(c)[k]).short_address < 64,
        forall|p: int, q: int|
            0 <= p < q < s.push(c).len() ==> (#[trigger] s.push(c)[p]).short_address != (
            #[trigger] s.push(c)[q]).short_address,
{
    let t = s.push(c);
    assert forall|k: int| 0 <= k < t.len() implies (#[trigger] t[k]).short_address < 64 by {
        if k < s.len() {
            assert(t[k] == s[k]);
        }
    }
    assert forall|p: int, q: int|
        0 <= p < q < t.len() implies (#[trigger] t[p]).short_address != (
    #[trigger] t[q]).short_address by {
        if q == s.len() {
            assert(t[p] == s[p]);
        } else {
            assert(t[p] == s[p]);
            assert(t[q] == s[q]);
        }
    }
}

/// Some group of `a` lists the value `v` as a member.
pub open spec fn spec_member_listed(a: BusConfig, v: u8) -> bool {
    exists|k: int, l: int|
        0 <= k < a.groups@.len() && 0 <= l < a.groups@[k].members@.len()
            && #[trigger] a.groups@[k].members@[l] == v
}

/// Member closure transfers to a bus with the same channel addresses
/// whose groups list only member values the old bus already listed.
pub proof fn lemma_members_closed_general(a: BusConfig, b: BusConfig)
    requires
        a.members_closed(),
        b.channels@.len() == a.channels@.len(),
        forall|i: int|
            0 <= i < a.channels@.len() ==> (#[trigger] b.channels@[i]).short_address
                == a.channels@[i].short_address,
        forall|i: int, j: int|
            0 <= i < b.groups@.len() && 0 <= j < b.groups@[i].members@.len()
                ==> spec_member_listed(a, #[trigger] b.groups@[i].members@[j]),
    ensures
        b.members_closed(),
{
    assert forall|i: int, j: int|
        0 <= i < b.groups@.len() && 0 <= j < b.groups@[i].members@.len() implies b.spec_has_channel(
        #[trigger] b.groups@[i].members@[j],
    ) by {
        let v = b.groups@[i].members@[j];
        let (k, l) = choose|k: int, l: int|
            0 <= k < a.groups@.len() && 0 <= l < a.groups@[k].members@.len()
                && #[trigger] a.groups@[k].members@[l] == v;
        assert(a.spec_has_channel(v));
        let w = choose|w: int|
            0 <= w < a.channels@.len() && (#[trigger] a.channels@[w]).short_address == v;
        assert(b.channels@[w].short_address == v);
    }
}

/// Closure transfer when every group keeps its members, loses one
/// occurrence, or is empty.
pub proof fn lemma_members_closed_shrunk(a: BusConfig, b: BusConfig)
    requires
        a.members_closed(),
        b.channels@.len() == a.channels@.len(),
        forall|i: int|
            0 <= i < a.channels@.len() ==> (#[trigger] b.channels@[i]).short_address
                == a.channels@[i].short_address,
        forall|i: int|
            0 <= i < b.groups@.len() ==> ((i < a.groups@.len() && ((
            #[trigger] b.groups@[i]).members@ == a.groups@[i].members@ || exists|j: int|
                0 <= j < a.groups@[i].members@.len() && b.groups@[i].members@ == a.groups@[i].members@.remove(j))) || b.groups@[i].members@.len() == 0),
    ensures
        b.members_closed(),
{
    assert forall|i: int, j: int|
        0 <= i < b.groups@.len() && 0 <= j < b.groups@[i].members@.len() implies spec_member_listed(
        a,
        #[trigger] b.groups@[i].members@[j],
    ) by {
        if b.groups@[i].members@ == a.groups@[i].members@ {
            assert(a.groups@[i].members@[j] == b.groups@[i].members@[j]);
        } else {
            let rj = choose|rj: int|
                0 <= rj < a.groups@[i].members@.len() && b.groups@[i].members@ == a.groups@[i].members@.remove(rj);
            let j0 = if j < rj {
                j
            } else {
                j + 1
            };
            assert(a.groups@[i].members@[j0] == b.groups@[i].members@[j]);
        }
    }
    lemma_members_closed_general(a, b);
}

/// Closure transfer when one whole group is removed.
pub proof fn lemma_members_closed_group_removed(a: BusConfig, b: BusConfig, k: int)
    requires
        a.members_closed(),
        b.channels@.len() == a.channels@.len(),
        forall|i: int|
            0 <= i < a.channels@.len() ==> (#[trigger] b.channels@[i]).short_address
                == a.channels@[i].short_address,
        0 <= k < a.groups@.len(),
        b.groups@ == a.groups@.remove(k),
    ensures
        b.members_closed(),
{
    assert forall|i: int, j: int|
        0 <= i < b.groups@.len() && 0 <= j < b.groups@[i].members@.len() implies spec_member_listed(
        a,
        #[trigger] b.groups@[i].members@[j],
    ) by {
        let i0 = if i < k {
            i
        } else {
            i + 1
        };
        assert(b.groups@[i] == a.groups@[i0]);
        assert(a.groups@[i0].members@[j] == b.groups@[i].members@[j]);
    }
    lemma_members_closed_general(a, b);
}

impl BusConfig {
    /// Decide the bus invariant at run time, for configurations that
    /// come from outside the library.
    #[verifier::loop_isolation(false)]
    pub fn check_wf(&self) -> (r: bool)
        ensures
            r == self.wf(),
    {
        let n = self.channels.len();
        let mut i: usize = 0;
        while i < n
            invariant
                i <= n,
                forall|k: int| 0 <= k < i ==> (#[trigger] self.channels@[k]).short_address < 64,
                forall|p: int, q: int|
                    0 <= p < q < n && p < i ==> (#[trigger] self.channels@[p]).short_address != (
                    #[trigger] self.channels@[q]).short_address,
            decreases n - i,
        {
            if self.channels[i].short_address >= 64 {
                return false;
            }
            let mut j: usize = i + 1;
            while j < n
                invariant
                    i < j <= n,
                    forall|q: int|
                        i < q < j ==> (#[trigger] self.channels@[q]).short_address
                            != self.channels@[i as int].short_address,
                decreases n - j,
            {
                if self.channels[j].short_address == self.channels[i].short_address {
                    return false;
                }
                j += 1;
            }
            i += 1;
        }
        let m = self.groups.len();
        let mut i: usize = 0;
        while i < m
            invariant
                i <= m,
                forall|k: int| 0 <= k < i ==> (#[trigger] self.groups@[k]).group_address < 16,
                forall|p: int, q: int|
                    0 <= p < q < m && p < i ==> (#[trigger] self.groups@[p]).group_address != (
                    #[trigger] self.groups@[q]).group_address,
                forall|k: int, p: int, q: int|
                    0 <= k < i && 0 <= p < q < self.groups@[k].members@.len()
                        ==> #[trigger] self.groups@[k].members@[p]
                        != #[trigger] self.groups@[k].members@[q],
                self.channels_wf(),
            decreases m - i,
        {
            if self.groups[i].group_address >= 16 {
                return false;
            }
            let mut j: usize = i + 1;
            while j < m
                invariant
                    i < j <= m,
                    forall|q: int|
                        i < q < j ==> (#[trigger] self.groups@[q]).group_address
                            != self.groups@[i as int].group_address,
                decreases m - j,
            {
                if self.groups[j].group_address == self.groups[i].group_address {
                    return false;
                }
                j += 1;
            }
            let members = &self.groups[i].members;
            let mc = members.len();
            let mut p: usize = 0;
            while p < mc
                invariant
                    p <= mc,
                    mc == members@.len(),
                    members == &self.groups@[i as int].members,
                    forall|a: int, b: int| 0 <= a < b < mc && a < p ==> members@[a] != members@[b],
                decreases mc - p,
            {
                let mut q: usize = p + 1;
                while q < mc
                    invariant
                        p < q <= mc,
                        mc == members@.len(),
                        forall|b: int| p < b < q ==> members@[b] != members@[p as int],
                    decreases mc - q,
                {
                    if members[q] == members[p] {
                        return false;
                    }
                    q += 1;
                }
                p += 1;
            }
            i += 1;
        }
        true
    }
}

impl DaliConfig {
    /// Decide the configuration invariant at run time.
    #[verifier::loop_isolation(false)]
    pub fn check_wf(&self) -> (r: bool)
        ensures
            r == self.wf(),
    {
        let n = self.buses.len();
        let mut i: usize = 0;
        while i < n
            invariant
                i <= n,
                forall|k: int|
                    0 <= k < i ==> (#[trigger] self.buses@[k]).wf() && self.buses@[k].bus == k,
            decreases n - i,
        {
            if self.buses[i].bus != i {
                return false;
            }
            if !self.buses[i].check_wf() {
                return false;
            }
            i += 1;
        }
        true
    }
}

} // verus!
