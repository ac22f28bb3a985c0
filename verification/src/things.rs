//! What is carried: what of it is money, what would be sold, what it weighs.

use crate::records::LootAction;
use crate::wares::{at_least_one, Salable};
use vstd::prelude::*;
use vstd::string::*;

verus! {

/// Coin.
pub const MONEY: u32 = 0x40;

/// Trade notes.
pub const PROMISSORY_NOTE: u32 = 0x4_0000;

/// Melee and missile weapons.
pub const MELEE_WEAPON: u32 = 0x1;

pub const MISSILE_WEAPON: u32 = 0x100;

/// The place that ammunition is worn in.
pub const MISSILE_AMMO: u32 = 0x80_0000;

/// Something carried.
#[derive(Clone, Debug)]
pub struct Thing {
    pub guid: u32,
    pub wcid: u32,
    pub name: String,
    /// What kinds of thing it is, one bit to a kind.
    pub item_type: u32,
    /// Where it can be worn, one bit to a place.
    pub valid_locations: u32,
    pub value: u32,
    /// What it weighs, the whole stack of it.
    pub burden: u32,
    pub stack: u32,
    /// What is known of it is enough to judge it by.
    pub known: bool,
    /// The selling rules let it go.
    pub offered: bool,
    /// It never goes over a counter with something in it, or with nothing.
    pub barred_full: bool,
    pub barred_empty: bool,
    /// The player said to sell it, and the server will let it go.
    pub leaving: bool,
}

pub open spec fn is_ammo(t: Thing) -> bool {
    t.valid_locations & MISSILE_AMMO != 0
}

/// The first of what is wielded that is a weapon and not ammunition, from `i`
/// on.
pub open spec fn weapon_from(wielded: Seq<Thing>, i: int) -> Option<u32>
    decreases wielded.len() - i,
{
    if i >= wielded.len() {
        None
    } else if wielded[i].item_type & (MELEE_WEAPON | MISSILE_WEAPON) != 0 && !is_ammo(wielded[i]) {
        Some(wielded[i].guid)
    } else {
        weapon_from(wielded, i + 1)
    }
}

/// The weapon in hand (not the ammunition), if any.
pub fn weapon_in_hand(wielded: &[Thing]) -> (r: Option<u32>)
    ensures
        r == weapon_from(wielded@, 0),
{
    let mut i: usize = 0;
    while i < wielded.len()
        invariant
            i <= wielded.len(),
            weapon_from(wielded@, 0) == weapon_from(wielded@, i as int),
        decreases wielded.len() - i,
    {
        let t = &wielded[i];
        if t.item_type & (MELEE_WEAPON | MISSILE_WEAPON) != 0 && t.valid_locations & MISSILE_AMMO
            == 0 {
            return Some(t.guid);
        }
        i = i + 1;
    }
    None
}

/// How many of the first `n` things there are, of those of some kind.
pub open spec fn counted_of(things: Seq<Thing>, kind: u32, n: nat) -> int
    decreases n,
{
    if n == 0 {
        0
    } else {
        counted_of(things, kind, (n - 1) as nat) + if things[n - 1].item_type & kind != 0 {
            at_least_one(things[n - 1].stack) as int
        } else {
            0
        }
    }
}

proof fn lemma_counted_grows(things: Seq<Thing>, kind: u32, i: nat, n: nat)
    requires
        i <= n,
    ensures
        0 <= counted_of(things, kind, i) <= counted_of(things, kind, n),
    decreases n,
{
    if i < n {
        lemma_counted_grows(things, kind, i, (n - 1) as nat);
    } else if n > 0 {
        lemma_counted_grows(things, kind, (n - 1) as nat, (n - 1) as nat);
    }
}

/// Pyreals carried.
pub fn purse(things: &[Thing]) -> (r: u32)
    requires
        counted_of(things@, MONEY, things@.len()) <= u32::MAX,
    ensures
        r == counted_of(things@, MONEY, things@.len()),
{
    let mut sum: u32 = 0;
    let mut i: usize = 0;
    while i < things.len()
        invariant
            i <= things.len(),
            counted_of(things@, MONEY, things@.len()) <= u32::MAX,
            sum == counted_of(things@, MONEY, i as nat),
        decreases things.len() - i,
    {
        proof {
            lemma_counted_grows(things@, MONEY, (i + 1) as nat, things@.len());
        }
        if things[i].item_type & MONEY != 0 {
            sum = sum + (if things[i].stack == 0 {
                1
            } else {
                things[i].stack
            });
        }
        i = i + 1;
    }
    sum
}

/// What a note of some worth and number comes to, held to what a `u32` can be.
pub open spec fn note_worth(t: Thing) -> u32 {
    let n = t.value * at_least_one(t.stack);
    if n > u32::MAX {
        u32::MAX
    } else {
        n as u32
    }
}

/// What the first `n` things come to, of those that are notes.
pub open spec fn notes_of(things: Seq<Thing>, n: nat) -> int
    decreases n,
{
    if n == 0 {
        0
    } else {
        notes_of(things, (n - 1) as nat) + if things[n - 1].item_type & PROMISSORY_NOTE != 0 {
            note_worth(things[n - 1]) as int
        } else {
            0
        }
    }
}

proof fn lemma_notes_grow(things: Seq<Thing>, i: nat, n: nat)
    requires
        i <= n,
    ensures
        0 <= notes_of(things, i) <= notes_of(things, n),
    decreases n,
{
    if i < n {
        lemma_notes_grow(things, i, (n - 1) as nat);
    } else if n > 0 {
        lemma_notes_grow(things, (n - 1) as nat, (n - 1) as nat);
    }
}

/// What can be spent, coin and notes together.
pub open spec fn spec_spendable(things: Seq<Thing>) -> u32 {
    let n = counted_of(things, MONEY, things.len()) + notes_of(things, things.len());
    if n > u32::MAX {
        u32::MAX
    } else {
        n as u32
    }
}

/// What the character can spend. Coin and trade notes both: a note is money in
/// a lighter form, and a vendor takes either.
pub fn spendable(things: &[Thing]) -> (r: u32)
    requires
        counted_of(things@, MONEY, things@.len()) <= u32::MAX,
        notes_of(things@, things@.len()) <= u32::MAX,
    ensures
        r == spec_spendable(things@),
{
    let mut notes: u32 = 0;
    let mut i: usize = 0;
    proof {
        lemma_counted_grows(things@, MONEY, 0, things@.len());
        lemma_notes_grow(things@, 0, things@.len());
    }
    while i < things.len()
        invariant
            i <= things.len(),
            notes_of(things@, things@.len()) <= u32::MAX,
            notes == notes_of(things@, i as nat),
        decreases things.len() - i,
    {
        proof {
            lemma_notes_grow(things@, (i + 1) as nat, things@.len());
        }
        if things[i].item_type & PROMISSORY_NOTE != 0 {
            let n: u32 = if things[i].stack == 0 {
                1
            } else {
                things[i].stack
            };
            let v: u32 = things[i].value;
            assert(v * n <= 0xffff_ffff * 0xffff_ffff) by (nonlinear_arith)
                requires
                    0 <= v <= 0xffff_ffff,
                    0 <= n <= 0xffff_ffff,
            ;
            let worth: u64 = v as u64 * n as u64;
            notes = notes + (if worth > u32::MAX as u64 {
                u32::MAX
            } else {
                worth as u32
            });
        }
        i = i + 1;
    }
    purse(things).saturating_add(notes)
}

/// A carried thing a counter would be offered. `holders` are the packs with
/// something in them.
pub open spec fn is_for_sale(t: Thing, holders: Seq<u32>) -> bool {
    &&& t.known
    &&& t.offered
    &&& if holders.contains(t.guid) {
        !t.barred_full
    } else {
        !t.barred_empty
    }
}

/// Those of the first `n` things that a counter would be offered.
pub open spec fn spec_for_sale(things: Seq<Thing>, holders: Seq<u32>, n: nat) -> Seq<Thing>
    decreases n,
{
    if n == 0 {
        seq![]
    } else {
        let rest = spec_for_sale(things, holders, (n - 1) as nat);
        if is_for_sale(things[n - 1], holders) {
            rest.push(things[n - 1])
        } else {
            rest
        }
    }
}

pub open spec fn as_salable(t: Thing) -> Salable {
    Salable {
        guid: t.guid,
        item_type: t.item_type,
        value: t.value,
        stack: at_least_one(t.stack),
    }
}

/// Whether the profile sells something that nobody has decided about. The
/// profile is the source of truth: a character without one sells nothing, rather
/// than deciding on its own what somebody's things are worth.
pub fn sold_by_profile(has_profile: bool, verdict: Option<LootAction>) -> (r: bool)
    ensures
        r == (has_profile && verdict == Some(LootAction::Sell)),
{
    match verdict {
        Some(LootAction::Sell) => has_profile,
        _ => false,
    }
}

/// What the selling rules allow to go.
pub open spec fn spec_salables(things: Seq<Thing>, holders: Seq<u32>) -> Seq<Salable> {
    spec_for_sale(things, holders, things.len()).map_values(|t: Thing| as_salable(t))
}

fn holds(holders: &[u32], guid: u32) -> (r: bool)
    ensures
        r == holders@.contains(guid),
{
    let mut i: usize = 0;
    while i < holders.len()
        invariant
            i <= holders.len(),
            forall|k: int| 0 <= k < i ==> holders@[k] != guid,
        decreases holders.len() - i,
    {
        if holders[i] == guid {
            return true;
        }
        i = i + 1;
    }
    false
}

fn goes_over(t: &Thing, holders: &[u32]) -> (r: bool)
    ensures
        r == is_for_sale(*t, holders@),
{
    if !t.known || !t.offered {
        return false;
    }
    if holds(holders, t.guid) {
        !t.barred_full
    } else {
        !t.barred_empty
    }
}

/// The carried things a counter would be offered, as they lie in the pack: what
/// the selling rules let go, less what no counter takes.
pub fn for_sale<'a>(things: &'a [Thing], holders: &[u32]) -> (r: Vec<&'a Thing>)
    ensures
        r@.map_values(|t: &Thing| *t) == spec_for_sale(things@, holders@, things@.len()),
{
    let mut r: Vec<&'a Thing> = Vec::new();
    let mut i: usize = 0;
    assert(r@.map_values(|t: &Thing| *t) =~= spec_for_sale(things@, holders@, 0));
    while i < things.len()
        invariant
            i <= things.len(),
            r@.map_values(|t: &Thing| *t) == spec_for_sale(things@, holders@, i as nat),
        decreases things.len() - i,
    {
        if goes_over(&things[i], holders) {
            let ghost so_far = r@;
            r.push(&things[i]);
            assert(r@.map_values(|t: &Thing| *t) =~= so_far.map_values(|t: &Thing| *t).push(
                things@[i as int],
            ));
        }
        i = i + 1;
    }
    r
}

/// Everything in the pack the selling rules allow to go, before any one
/// counter's tastes are applied to it.
pub fn salables(things: &[Thing], holders: &[u32]) -> (r: Vec<Salable>)
    ensures
        r@ == spec_salables(things@, holders@),
{
    let all = for_sale(things, holders);
    let ghost wanted = spec_for_sale(things@, holders@, things@.len());
    let mut r: Vec<Salable> = Vec::new();
    let mut i: usize = 0;
    while i < all.len()
        invariant
            i <= all.len(),
            all@.map_values(|t: &Thing| *t) == wanted,
            r@ == wanted.take(i as int).map_values(|t: Thing| as_salable(t)),
        decreases all.len() - i,
    {
        let t = all[i];
        assert(*t == all@.map_values(|t: &Thing| *t)[i as int]);
        let stack: u32 = if t.stack == 0 {
            1
        } else {
            t.stack
        };
        r.push(Salable { guid: t.guid, item_type: t.item_type, value: t.value, stack });
        assert(r@ =~= wanted.take(i + 1).map_values(|t: Thing| as_salable(t)));
        i = i + 1;
    }
    assert(all@.map_values(|t: &Thing| *t).len() == all@.len());
    assert(wanted.take(i as int) =~= wanted);
    r
}

/// What the first `n` of some things weigh, held to what a `u32` can be.
pub open spec fn weight_of(things: Seq<Thing>, n: nat) -> u32
    decreases n,
{
    if n == 0 {
        0
    } else {
        let sum = weight_of(things, (n - 1) as nat) + things[n - 1].burden;
        if sum > u32::MAX {
            u32::MAX
        } else {
            sum as u32
        }
    }
}

/// What the loot being carried weighs.
pub open spec fn spec_loot_burden(things: Seq<Thing>, holders: Seq<u32>) -> u32 {
    let loot = spec_for_sale(things, holders, things.len());
    weight_of(loot, loot.len())
}

/// What the loot being carried weighs: everything a counter would be offered. A
/// stack's burden is the whole stack's already, and a pack with anything in it
/// is never offered, so nothing is counted twice.
pub fn loot_burden(things: &[Thing], holders: &[u32]) -> (r: u32)
    ensures
        r == spec_loot_burden(things@, holders@),
{
    let all = for_sale(things, holders);
    let ghost loot = spec_for_sale(things@, holders@, things@.len());
    let mut sum: u32 = 0;
    let mut i: usize = 0;
    while i < all.len()
        invariant
            i <= all.len(),
            all@.map_values(|t: &Thing| *t) == loot,
            sum == weight_of(loot, i as nat),
        decreases all.len() - i,
    {
        assert(*all@[i as int] == all@.map_values(|t: &Thing| *t)[i as int]);
        sum = sum.saturating_add(all[i].burden);
        i = i + 1;
    }
    assert(all@.map_values(|t: &Thing| *t).len() == all@.len());
    sum
}

/// Those of the first `n` things that the rules would sell.
pub open spec fn spec_loot_for_sale(things: Seq<Thing>, n: nat) -> Seq<u32>
    decreases n,
{
    if n == 0 {
        seq![]
    } else {
        let rest = spec_loot_for_sale(things, (n - 1) as nat);
        if things[n - 1].known && things[n - 1].offered {
            rest.push(things[n - 1].guid)
        } else {
            rest
        }
    }
}

/// Everything the character is carrying that the rules would sell, whether or
/// not a vendor is open. What the party hands its quartermaster before it
/// leaves.
pub fn loot_for_sale(things: &[Thing]) -> (r: Vec<u32>)
    ensures
        r@ == spec_loot_for_sale(things@, things@.len()),
{
    let mut r: Vec<u32> = Vec::new();
    let mut i: usize = 0;
    while i < things.len()
        invariant
            i <= things.len(),
            r@ == spec_loot_for_sale(things@, i as nat),
        decreases things.len() - i,
    {
        if things[i].known && things[i].offered {
            r.push(things[i].guid);
        }
        i = i + 1;
    }
    r
}

/// What an open counter takes: the kinds of thing, and the least and the most
/// one may be worth.
#[derive(Clone, Copy, Debug, PartialEq, Eq, Structural)]
pub struct Window {
    pub item_types: u32,
    pub min_value: u32,
    pub max_value: u32,
}

/// Those of the first `n` things for sale that a counter takes.
pub open spec fn spec_sale_list(all: Seq<Salable>, w: Window, n: nat) -> Seq<u32>
    decreases n,
{
    if n == 0 {
        seq![]
    } else {
        let rest = spec_sale_list(all, w, (n - 1) as nat);
        if all[n - 1].spec_taken_by(w.item_types, w.min_value, w.max_value) {
            rest.push(all[n - 1].guid)
        } else {
            rest
        }
    }
}

/// The pack items to sell to the open vendor, which takes only some kinds of
/// thing; none with no vendor open.
pub fn sale_list(all: &[Salable], window: Option<Window>) -> (r: Vec<u32>)
    ensures
        r@ == match window {
            Some(w) => spec_sale_list(all@, w, all@.len()),
            None => seq![],
        },
{
    let mut r: Vec<u32> = Vec::new();
    let w = match window {
        Some(w) => w,
        None => {
            assert(r@ =~= Seq::<u32>::empty());
            return r;
        },
    };
    let mut i: usize = 0;
    while i < all.len()
        invariant
            i <= all.len(),
            r@ == spec_sale_list(all@, w, i as nat),
        decreases all.len() - i,
    {
        if all[i].taken_by(w.item_types, w.min_value, w.max_value) {
            r.push(all[i].guid);
        }
        i = i + 1;
    }
    r
}

} // verus!
