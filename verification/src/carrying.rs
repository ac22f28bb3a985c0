//! How much is carried, and how much more may be.

use crate::burden::{
    had_enough, left_of, loot_part, loot_room, past_the_wall, spec_had_enough, spec_loot_room, wall,
};
use crate::single::Single;
use crate::things::Thing;
use vstd::prelude::*;

verus! {

/// The properties that say what is carried, how much the carrying is
/// augmented, and which society the character belongs to.
pub const ENCUMBRANCE_VAL: u32 = 5;

pub const CARRY_AUGMENTATION: u32 = 230;

pub const FACTION1_BITS: u32 = 281;

/// A property of the character, as the server sent it.
#[derive(Clone, Copy, Debug, PartialEq, Eq, Structural)]
pub struct Property {
    pub key: u32,
    pub value: i32,
}

/// The first property of some key from `i` on, nothing below nought.
pub open spec fn int_from(ints: Seq<Property>, key: u32, i: int) -> Option<u32>
    decreases ints.len() - i,
{
    if i >= ints.len() {
        None
    } else if ints[i].key == key {
        Some(
            if ints[i].value < 0 {
                0
            } else {
                ints[i].value as u32
            },
        )
    } else {
        int_from(ints, key, i + 1)
    }
}

fn int_of(ints: &[Property], key: u32) -> (r: Option<u32>)
    ensures
        r == int_from(ints@, key, 0),
{
    let mut i: usize = 0;
    while i < ints.len()
        invariant
            i <= ints.len(),
            int_from(ints@, key, 0) == int_from(ints@, key, i as int),
        decreases ints.len() - i,
    {
        if ints[i].key == key {
            return if ints[i].value < 0 {
                Some(0)
            } else {
                Some(ints[i].value as u32)
            };
        }
        i = i + 1;
    }
    None
}

/// What the first `n` things weigh.
pub open spec fn lumped(things: Seq<Thing>, n: nat) -> int
    decreases n,
{
    if n == 0 {
        0
    } else {
        lumped(things, (n - 1) as nat) + things[n - 1].burden
    }
}

proof fn lemma_lumped_grows(things: Seq<Thing>, i: nat, n: nat)
    requires
        i <= n,
    ensures
        0 <= lumped(things, i) <= lumped(things, n),
    decreases n,
{
    if i < n {
        lemma_lumped_grows(things, i, (n - 1) as nat);
    } else if n > 0 {
        lemma_lumped_grows(things, (n - 1) as nat, (n - 1) as nat);
    }
}

/// What the character hangs on itself: the main pack's items, side packs
/// included as the single lumps they weigh, and whatever is worn or held.
pub struct Load<'a> {
    pub ints: &'a [Property],
    pub main_pack: &'a [Thing],
    pub wielded: &'a [Thing],
    pub strength: u32,
}

pub open spec fn or_nought(n: Option<u32>) -> u32 {
    match n {
        Some(v) => v,
        None => 0,
    }
}

/// What the pack and what is worn come to, and what the capacity is worked out
/// from, can be counted.
pub open spec fn can_be_weighed(l: Load) -> bool {
    &&& int_from(l.ints@, ENCUMBRANCE_VAL, 0) is None ==> lumped(
        l.main_pack@,
        l.main_pack@.len(),
    ) + lumped(l.wielded@, l.wielded@.len()) <= u32::MAX
    &&& 150 + 30 * or_nought(int_from(l.ints@, CARRY_AUGMENTATION, 0)) <= u32::MAX
}

/// What the character carries, and the most it may.
pub open spec fn spec_burden(l: Load) -> (u32, u32) {
    let carried = match int_from(l.ints@, ENCUMBRANCE_VAL, 0) {
        Some(n) => n,
        None => (lumped(l.main_pack@, l.main_pack@.len()) + lumped(
            l.wielded@,
            l.wielded@.len(),
        )) as u32,
    };
    let each = 150 + 30 * or_nought(int_from(l.ints@, CARRY_AUGMENTATION, 0));
    let capacity = l.strength * each;
    (
        carried,
        if capacity > u32::MAX {
            u32::MAX
        } else {
            capacity as u32
        },
    )
}

fn add_up(things: &[Thing]) -> (r: u32)
    requires
        lumped(things@, things@.len()) <= u32::MAX,
    ensures
        r == lumped(things@, things@.len()),
{
    let mut sum: u32 = 0;
    let mut i: usize = 0;
    while i < things.len()
        invariant
            i <= things.len(),
            lumped(things@, things@.len()) <= u32::MAX,
            sum == lumped(things@, i as nat),
        decreases things.len() - i,
    {
        proof {
            lemma_lumped_grows(things@, (i + 1) as nat, things@.len());
        }
        sum = sum + things[i].burden;
        i = i + 1;
    }
    sum
}

/// What the character is carrying, in burden units, and the most it may carry.
///
/// What the server says it is carrying, or the pack counted up when it has not
/// said. The capacity is a hundred and fifty times Strength, plus thirty more
/// per rank of the carrying-capacity augmentation; the server refuses to hand
/// over anything that would take the character past three times that.
pub fn burden(l: &Load) -> (r: (u32, u32))
    requires
        can_be_weighed(*l),
    ensures
        r == spec_burden(*l),
{
    let carried: u32 = match int_of(l.ints, ENCUMBRANCE_VAL) {
        Some(n) => n,
        None => {
            proof {
                lemma_lumped_grows(l.main_pack@, 0, l.main_pack@.len());
                lemma_lumped_grows(l.wielded@, 0, l.wielded@.len());
            }
            add_up(l.main_pack) + add_up(l.wielded)
        },
    };
    let ranks: u32 = match int_of(l.ints, CARRY_AUGMENTATION) {
        Some(n) => n,
        None => 0,
    };
    let each: u32 = 150 + 30 * ranks;
    assert(l.strength * each <= 0xffff_ffff * 0xffff_ffff) by (nonlinear_arith)
        requires
            0 <= l.strength <= 0xffff_ffff,
            0 <= each <= 0xffff_ffff,
    ;
    let capacity: u64 = l.strength as u64 * each as u64;
    (
        carried,
        if capacity > u32::MAX as u64 {
            u32::MAX
        } else {
            capacity as u32
        },
    )
}

pub open spec fn spec_burden_room(l: Load) -> int {
    let (now, capacity) = spec_burden(l);
    left_of(wall(capacity), now as int)
}

/// How much more the character may be handed before the server starts refusing:
/// three times its capacity, less what it carries.
pub fn burden_room(l: &Load) -> (r: u32)
    requires
        can_be_weighed(*l),
    ensures
        r == spec_burden_room(*l),
{
    let (now, capacity) = burden(l);
    let most: u32 = if capacity > u32::MAX / 3 {
        u32::MAX
    } else {
        capacity * 3
    };
    if most > now {
        most - now
    } else {
        0
    }
}

/// How much more loot the character will take on before it stops hunting and
/// goes to sell, of which `loot` is carried already and `up_to` times its
/// capacity is meant to be. Zero means it has had enough.
pub fn carry_room(l: &Load, loot: u32, up_to: Single) -> (r: u32)
    requires
        can_be_weighed(*l),
    ensures
        r == spec_loot_room(spec_burden(*l).0, loot, spec_burden(*l).1, up_to),
{
    let (now, capacity) = burden(l);
    loot_room(now, loot, capacity, up_to)
}

/// The character carries as much loot as it means to.
pub open spec fn spec_laden(l: Load, loot: u32, up_to: Single, left: Option<u32>) -> bool {
    let (carried, capacity) = spec_burden(l);
    let sold = loot_part(carried, loot);
    capacity > 0 && spec_had_enough(
        spec_loot_room(carried, sold as u32, capacity, up_to) as u32,
        left,
        spec_loot_room((carried - sold) as u32, 0, capacity, up_to) as u32,
    )
}

/// Carrying as much loot as it means to: time to go and sell. Not before its
/// strength is known. `left` is the lightest thing the looting last left on a
/// body still lying about.
pub fn laden(l: &Load, loot: u32, up_to: Single, left: Option<u32>) -> (r: bool)
    requires
        can_be_weighed(*l),
    ensures
        r == spec_laden(*l, loot, up_to, left),
{
    let (carried, capacity) = burden(l);
    if capacity == 0 {
        return false;
    }
    let part: u32 = if loot < carried {
        loot
    } else {
        carried
    };
    let room: u32 = loot_room(carried, part, capacity, up_to);
    // Sold down to what it keeps: the room a trip to town would give.
    let sold: u32 = loot_room(carried - part, 0, capacity, up_to);
    had_enough(room, left, sold)
}

/// Which society this character belongs to, as bits: 1 the Celestial Hand, 2
/// the Eldrytch Web, 4 the Radiant Blood, 0 none.
pub fn society(ints: &[Property]) -> (r: u32)
    ensures
        r == or_nought(int_from(ints@, FACTION1_BITS, 0)),
{
    match int_of(ints, FACTION1_BITS) {
        Some(n) => n,
        None => 0,
    }
}

/// How many slots each pack has free, the main pack and the side packs.
#[derive(Clone, Debug)]
pub struct Packs {
    pub free: Vec<u32>,
}

/// The most of the first `n`.
pub open spec fn most_of(free: Seq<u32>, n: nat) -> u32
    decreases n,
{
    if n == 0 {
        0
    } else {
        let m = most_of(free, (n - 1) as nat);
        if m < free[n - 1] {
            free[n - 1]
        } else {
            m
        }
    }
}

/// The first `n` together.
pub open spec fn sum_of(free: Seq<u32>, n: nat) -> int
    decreases n,
{
    if n == 0 {
        0
    } else {
        sum_of(free, (n - 1) as nat) + free[n - 1]
    }
}

proof fn lemma_sum_grows(free: Seq<u32>, i: nat, n: nat)
    requires
        i <= n,
    ensures
        0 <= sum_of(free, i) <= sum_of(free, n),
    decreases n,
{
    if i < n {
        lemma_sum_grows(free, i, (n - 1) as nat);
    } else if n > 0 {
        lemma_sum_grows(free, (n - 1) as nat, (n - 1) as nat);
    }
}

impl Packs {
    pub open spec fn for_a_take(self) -> u32 {
        most_of(self.free@, self.free@.len())
    }

    pub open spec fn anywhere(self) -> int {
        sum_of(self.free@, self.free@.len())
    }

    /// Free item slots as one take can use them: the most room any one pack
    /// has. A take goes into the pack it names, so the slots are not added.
    pub fn free_space(&self) -> (r: u32)
        ensures
            r == self.for_a_take(),
    {
        let mut most: u32 = 0;
        let mut i: usize = 0;
        while i < self.free.len()
            invariant
                i <= self.free.len(),
                most == most_of(self.free@, i as nat),
            decreases self.free.len() - i,
        {
            if most < self.free[i] {
                most = self.free[i];
            }
            i = i + 1;
        }
        most
    }

    /// Free item slots as the server spreads what it creates over them: every
    /// pack's room together.
    pub fn room_anywhere(&self) -> (r: u32)
        requires
            self.anywhere() <= u32::MAX,
        ensures
            r == self.anywhere(),
    {
        let mut sum: u32 = 0;
        let mut i: usize = 0;
        while i < self.free.len()
            invariant
                i <= self.free.len(),
                self.anywhere() <= u32::MAX,
                sum == sum_of(self.free@, i as nat),
            decreases self.free.len() - i,
        {
            proof {
                lemma_sum_grows(self.free@, (i + 1) as nat, self.free@.len());
            }
            sum = sum + self.free[i];
            i = i + 1;
        }
        sum
    }

    pub open spec fn spec_low_on_room(self, keep_slots: u32) -> bool {
        self.for_a_take() == 0 || self.anywhere() <= keep_slots
    }

    /// No pack has a slot for a take, or the packs together are down to the
    /// slots kept free for a counter's money: time to sell, while a sale can
    /// still be paid for.
    pub fn pack_low_on_room(&self, keep_slots: u32) -> (r: bool)
        requires
            self.anywhere() <= u32::MAX,
        ensures
            r == self.spec_low_on_room(keep_slots),
    {
        self.free_space() == 0 || self.room_anywhere() <= keep_slots
    }
}

/// What the character has room for, as a corpse waiting on it sees it.
#[derive(Clone, Copy, Debug, PartialEq, Eq, Structural)]
pub struct Room {
    pub pack_low: bool,
    pub past_the_wall: bool,
    pub carry: u32,
}

/// What the character has room for, as a corpse waiting on it sees it. What the
/// loot weighs is asked only while a body is waiting on it.
pub fn room_for_loot(
    l: &Load,
    packs: &Packs,
    keep_slots: u32,
    waiting: bool,
    loot: u32,
    up_to: Single,
) -> (r: Room)
    requires
        can_be_weighed(*l),
        packs.anywhere() <= u32::MAX,
    ensures
        r == (Room {
            pack_low: packs.spec_low_on_room(keep_slots),
            past_the_wall: spec_burden(*l).1 > 0 && spec_burden(*l).0 > wall(spec_burden(*l).1),
            carry: if waiting {
                spec_loot_room(spec_burden(*l).0, loot, spec_burden(*l).1, up_to) as u32
            } else {
                u32::MAX
            },
        }),
        !waiting ==> r.carry == u32::MAX,
        r.past_the_wall <==> spec_burden(*l).1 > 0 && spec_burden(*l).0 > 3 * spec_burden(*l).1,
{
    let (carried, capacity) = burden(l);
    Room {
        pack_low: packs.pack_low_on_room(keep_slots),
        past_the_wall: past_the_wall(carried, capacity),
        carry: if waiting {
            carry_room(l, loot, up_to)
        } else {
            u32::MAX
        },
    }
}

} // verus!
