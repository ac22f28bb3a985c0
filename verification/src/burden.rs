//! How much a character can carry, and when it has had enough.

use crate::single::Single;
use vstd::prelude::*;

verus! {

/// Twice its capacity, as a number: as much as burden can take from a
/// character. The server scales its defenses by two less its burden in
/// multiples of capacity: all of them at one, half at one and a half, none at
/// all at two.
pub const DEFENSELESS_AT: u32 = 0x4000_0000;

/// So many times a capacity, cut to a whole number.
pub open spec fn times_capacity(capacity: u32, times: Single) -> u32 {
    Single::whole(capacity as int).product(times).cut()
}

/// `a` less `b`, nothing where `b` is the larger.
pub open spec fn left_of(a: int, b: int) -> int {
    if a > b {
        a - b
    } else {
        0
    }
}

pub open spec fn least(a: int, b: int) -> int {
    if a < b {
        a
    } else {
        b
    }
}

/// Where the server hands over nothing more: three times the capacity.
pub open spec fn wall(capacity: u32) -> int {
    least(3 * capacity, u32::MAX as int)
}

/// The part of what is carried that is loot.
pub open spec fn loot_part(carried: u32, loot: u32) -> int {
    least(loot as int, carried as int)
}

/// The working limit, measured on loot alone.
pub open spec fn working_limit(capacity: u32, carry_up_to: Single) -> u32 {
    times_capacity(capacity, carry_up_to.larger(Single { bits: 0 }))
}

/// Where a character has no defense left, measured on everything, or the
/// working limit's own multiple where that is higher.
pub open spec fn defense_line(capacity: u32, carry_up_to: Single) -> u32 {
    times_capacity(
        capacity,
        carry_up_to.larger(Single { bits: 0 }).larger(Single { bits: DEFENSELESS_AT }),
    )
}

/// How much more loot a character will take on: what the nearest of the working
/// limit, the line of no defense and the server's wall leaves, the line giving
/// way where what the character keeps weighs that much on its own.
pub open spec fn spec_loot_room(carried: u32, loot: u32, capacity: u32, carry_up_to: Single) -> int {
    let sold = loot_part(carried, loot);
    let kept = carried - sold;
    let line = defense_line(capacity, carry_up_to);
    let room = least(
        left_of(working_limit(capacity, carry_up_to) as int, sold),
        left_of(wall(capacity), carried as int),
    );
    if kept < line {
        least(room, left_of(line as int, carried as int))
    } else {
        room
    }
}

fn min(a: u32, b: u32) -> (r: u32)
    ensures
        r == least(a as int, b as int),
{
    if a < b {
        a
    } else {
        b
    }
}

fn minus(a: u32, b: u32) -> (r: u32)
    ensures
        r == left_of(a as int, b as int),
{
    if a > b {
        a - b
    } else {
        0
    }
}

fn wall_of(capacity: u32) -> (r: u32)
    ensures
        r == wall(capacity),
{
    if capacity > u32::MAX / 3 {
        u32::MAX
    } else {
        capacity * 3
    }
}

/// How much more loot a character will take on before it has had enough.
/// `carried` is everything, gear and all; `loot` is the part of it a counter
/// would take.
///
/// Three things stop it, and the room is what the nearest of them leaves:
///
/// * the working limit, `carry_up_to` times its capacity, measured on the loot
///   alone;
/// * twice its capacity, measured on everything, where it has no defense left
///   (or the working limit's own multiple, when the player has set it higher
///   than that);
/// * the server's wall at three times, measured on everything, past which it
///   hands over nothing at all.
///
/// The limit counts only loot because nothing else can be sold off. The second
/// line gives way when what the character keeps weighs that much on its own:
/// loot cannot slow it any further, and a line no sale can bring it back under
/// would leave every corpse untouched. The wall never gives way.
pub fn loot_room(carried: u32, loot: u32, capacity: u32, carry_up_to: Single) -> (r: u32)
    ensures
        r == spec_loot_room(carried, loot, capacity, carry_up_to),
{
    let up_to = carry_up_to.max(Single { bits: 0 });
    let loot: u32 = min(loot, carried);
    let kept: u32 = carried - loot;
    let whole = Single::from_u32(capacity);
    let limit: u32 = whole.times(up_to).to_u32();
    let line: u32 = whole.times(up_to.max(Single { bits: DEFENSELESS_AT })).to_u32();
    let room: u32 = min(minus(limit, loot), minus(wall_of(capacity), carried));
    if kept < line {
        min(room, minus(line, carried))
    } else {
        room
    }
}

/// Whether a character with `room` for more loot has had enough and should go
/// and sell: no room at all, or less than the lightest thing the looting left
/// on a body for its weight (`left`), as long as selling what it carries would
/// make room for that thing (`sold` is the room it would have then).
pub fn had_enough(room: u32, left: Option<u32>, sold: u32) -> (r: bool)
    ensures
        r == spec_had_enough(room, left, sold),
{
    room == 0 || match left {
        Some(burden) => room < burden && burden <= sold,
        None => false,
    }
}

pub open spec fn spec_had_enough(room: u32, left: Option<u32>, sold: u32) -> bool {
    room == 0 || (left is Some && room < left->0 <= sold)
}

/// Whether a character carrying `carried` is past the point where the server
/// hands it anything at all: three times its `capacity`, and weight has nothing
/// to do with it there. With no capacity known yet nothing is past it.
pub fn past_the_wall(carried: u32, capacity: u32) -> (r: bool)
    ensures
        r == (capacity > 0 && carried > wall(capacity)),
{
    capacity > 0 && carried > wall_of(capacity)
}

/// What is taken on passes neither the working limit, nor the line of no
/// defense while that stands, nor the wall.
pub proof fn law_room_passes_no_line(carried: u32, loot: u32, capacity: u32, carry_up_to: Single)
    ensures
        ({
            let room = spec_loot_room(carried, loot, capacity, carry_up_to);
            let sold = loot_part(carried, loot);
            &&& room >= 0
            &&& room > 0 ==> sold + room <= working_limit(capacity, carry_up_to)
            &&& room > 0 ==> carried + room <= wall(capacity)
            &&& room > 0 && carried - sold < defense_line(capacity, carry_up_to) ==> carried + room
                <= defense_line(capacity, carry_up_to)
        }),
{
}

/// A sale always makes room: with all its loot sold, a character that means to
/// carry anything has room, unless what it keeps is at the wall by itself.
pub proof fn law_a_sale_makes_room(kept: u32, capacity: u32, carry_up_to: Single)
    requires
        working_limit(capacity, carry_up_to) > 0,
    ensures
        spec_loot_room(kept, 0, capacity, carry_up_to) == 0 <==> kept >= wall(capacity),
{
}

/// Selling never leaves less room than there was.
pub proof fn law_selling_never_costs_room(
    carried: u32,
    loot: u32,
    sold: u32,
    capacity: u32,
    carry_up_to: Single,
)
    requires
        sold <= loot <= carried,
    ensures
        spec_loot_room(carried, loot, capacity, carry_up_to) <= spec_loot_room(
            (carried - sold) as u32,
            (loot - sold) as u32,
            capacity,
            carry_up_to,
        ),
{
}

} // verus!
