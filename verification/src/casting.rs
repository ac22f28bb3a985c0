//! What a caster casts, and how much of each component it keeps for it.

use crate::single::Single;
use crate::things::{is_ammo, Thing, MISSILE_AMMO};
use crate::wares::at_least_one;
use vstd::prelude::*;

verus! {

/// A component of a formula: which, and how readily it burns, none where the
/// table of components has no such one.
#[derive(Clone, Copy, Debug, PartialEq, Eq, Structural)]
pub struct Ingredient {
    pub id: u32,
    pub cdm: Option<Single>,
}

/// A spell's formula, and how readily the spell burns what it is cast with.
#[derive(Clone, Debug)]
pub struct Recipe {
    pub loss: Single,
    pub parts: Vec<Ingredient>,
}

/// A component that burns at some rate.
#[derive(Clone, Copy, Debug, PartialEq, Eq, Structural)]
pub struct Burn {
    pub id: u32,
    pub rate: Single,
}

/// What the first `n` parts of a formula burn.
pub open spec fn burns_of(r: Recipe, n: nat) -> Seq<Burn>
    decreases n,
{
    if n == 0 {
        seq![]
    } else {
        let rest = burns_of(r, (n - 1) as nat);
        match r.parts@[n - 1].cdm {
            Some(cdm) => rest.push(Burn { id: r.parts@[n - 1].id, rate: r.loss.product(cdm) }),
            None => rest,
        }
    }
}

/// What the first `n` formulas burn.
pub open spec fn all_burns(recipes: Seq<Recipe>, n: nat) -> Seq<Burn>
    decreases n,
{
    if n == 0 {
        seq![]
    } else {
        all_burns(recipes, (n - 1) as nat) + burns_of(
            recipes[n - 1],
            recipes[n - 1].parts@.len(),
        )
    }
}

/// The fastest rate a component burns at, of the first `n` that burn.
pub open spec fn fastest_of(burns: Seq<Burn>, id: u32, n: nat) -> Single
    decreases n,
{
    if n == 0 {
        Single { bits: 0 }
    } else {
        let so_far = fastest_of(burns, id, (n - 1) as nat);
        if burns[n - 1].id == id && so_far.below(burns[n - 1].rate) {
            burns[n - 1].rate
        } else {
            so_far
        }
    }
}

pub open spec fn burnt(burns: Seq<Burn>, id: u32) -> bool {
    exists|i: int| 0 <= i < burns.len() && (#[trigger] burns[i]).id == id
}

/// How many of a component to carry, with `tapers` of the component `yardstick`
/// kept.
#[verifier::opaque]
pub open spec fn target_of(burns: Seq<Burn>, yardstick: u32, id: u32, tapers: u32) -> u32 {
    let taper = fastest_of(burns, yardstick, burns.len());
    let floor: u32 = if tapers / 50 == 0 {
        1
    } else {
        (tapers / 50) as u32
    };
    let want = if (Single { bits: 0 }).below(taper) {
        Single::whole(tapers as int).product(fastest_of(burns, id, burns.len())).quotient(
            taper,
        ).near()
    } else {
        tapers
    };
    if want < floor {
        floor
    } else {
        want
    }
}

/// A component, and how many of it to carry.
#[derive(Clone, Copy, Debug, PartialEq, Eq, Structural)]
pub struct Target {
    pub id: u32,
    pub keep: u32,
}

/// `out` says how many of each component to carry: each that burns once, in the
/// order of their numbers.
pub open spec fn are_targets(out: Seq<Target>, burns: Seq<Burn>, yardstick: u32, tapers: u32) -> bool {
    &&& forall|i: int, j: int|
        0 <= i < j < out.len() ==> (#[trigger] out[i]).id < (#[trigger] out[j]).id
    &&& forall|i: int|
        0 <= i < out.len() ==> burnt(burns, (#[trigger] out[i]).id) && out[i].keep == target_of(
            burns,
            yardstick,
            out[i].id,
            tapers,
        )
    &&& forall|id: u32| #[trigger] burnt(burns, id) ==> target_listed(out, id)
}

pub open spec fn target_listed(out: Seq<Target>, id: u32) -> bool {
    exists|i: int| 0 <= i < out.len() && (#[trigger] out[i]).id == id
}

/// `seen` are the components of the first `n` that burn, each once, in the
/// order of their numbers, with the fastest rate of each.
pub open spec fn are_rates(seen: Seq<Burn>, burns: Seq<Burn>, n: nat) -> bool {
    &&& forall|i: int, j: int|
        0 <= i < j < seen.len() ==> (#[trigger] seen[i]).id < (#[trigger] seen[j]).id
    &&& forall|i: int|
        0 <= i < seen.len() ==> burnt(burns.take(n as int), (#[trigger] seen[i]).id)
            && seen[i].rate == fastest_of(burns, seen[i].id, n)
    &&& forall|k: int|
        0 <= k < n ==> exists|i: int|
            0 <= i < seen.len() && (#[trigger] seen[i]).id == (#[trigger] burns[k]).id
}

/// Nothing burns at a rate when nothing of it has burnt.
proof fn lemma_unburnt(burns: Seq<Burn>, id: u32, n: nat)
    requires
        n <= burns.len(),
        forall|k: int| 0 <= k < n ==> (#[trigger] burns[k]).id != id,
    ensures
        fastest_of(burns, id, n) == (Single { bits: 0 }),
    decreases n,
{
    if n > 0 {
        lemma_unburnt(burns, id, (n - 1) as nat);
    }
}

/// Take in one more that burns.
fn take_in(seen: &mut Vec<Burn>, b: Burn, Ghost(burns): Ghost<Seq<Burn>>, Ghost(n): Ghost<nat>)
    requires
        n < burns.len(),
        burns[n as int] == b,
        are_rates(old(seen)@, burns, n),
    ensures
        are_rates(final(seen)@, burns, (n + 1) as nat),
{
    let ghost before = seen@;
    let mut k: usize = 0;
    while k < seen.len() && seen[k].id < b.id
        invariant
            k <= seen.len(),
            seen@ == before,
            forall|i: int| 0 <= i < k ==> (#[trigger] seen@[i]).id < b.id,
        decreases seen.len() - k,
    {
        k = k + 1;
    }
    proof {
        assert(burns.take(n as int + 1)[n as int].id == b.id);
        assert forall|id: u32| burnt(burns.take(n as int), id) implies burnt(
            burns.take(n as int + 1),
            id,
        ) by {
            let i = choose|i: int|
                0 <= i < burns.take(n as int).len() && (#[trigger] burns.take(n as int)[i]).id
                    == id;
            assert(burns.take(n as int + 1)[i].id == id);
        }
    }
    if k < seen.len() && seen[k].id == b.id {
        if seen[k].rate.lt(b.rate) {
            seen.set(k, b);
        }
        proof {
            assert forall|m: int| 0 <= m < n + 1 implies exists|i: int|
                0 <= i < seen@.len() && (#[trigger] seen@[i]).id == (#[trigger] burns[m]).id by {
                if m == n {
                    assert(seen@[k as int].id == burns[m].id);
                } else {
                    let i = choose|i: int|
                        0 <= i < before.len() && (#[trigger] before[i]).id == burns[m].id;
                    assert(seen@[i].id == burns[m].id);
                }
            }
        }
        return;
    }
    proof {
        assert forall|m: int| 0 <= m < n implies (#[trigger] burns[m]).id != b.id by {
            let i = choose|i: int|
                0 <= i < before.len() && (#[trigger] before[i]).id == burns[m].id;
            if i > k {
                assert(before[k as int].id < before[i].id);
            }
        }
        lemma_unburnt(burns, b.id, n);
    }
    let first = if (Single { bits: 0 }).lt(b.rate) {
        b
    } else {
        Burn { id: b.id, rate: Single { bits: 0 } }
    };
    seen.insert(k, first);
    proof {
        let after = seen@;
        assert forall|i: int, j: int| 0 <= i < j < after.len() implies (#[trigger] after[i]).id < (
        #[trigger] after[j]).id by {
            let a = if i < k {
                i
            } else {
                i - 1
            };
            let c = if j < k {
                j
            } else {
                j - 1
            };
            if i == k {
                if c > k {
                    assert(before[k as int].id < before[c].id);
                }
            } else if j == k {
                assert(before[a].id < b.id);
            } else {
                assert(before[a].id < before[c].id);
            }
        }
        assert forall|i: int| 0 <= i < after.len() implies burnt(
            burns.take(n as int + 1),
            (#[trigger] after[i]).id,
        ) && after[i].rate == fastest_of(burns, after[i].id, (n + 1) as nat) by {
            if i < k {
                assert(after[i] == before[i]);
            } else if i > k {
                assert(after[i] == before[i - 1]);
                if i - 1 > k {
                    assert(before[k as int].id < before[i - 1].id);
                }
            }
        }
        assert forall|m: int| 0 <= m < n + 1 implies exists|i: int|
            0 <= i < after.len() && (#[trigger] after[i]).id == (#[trigger] burns[m]).id by {
            if m == n {
                assert(after[k as int].id == burns[m].id);
            } else {
                let i = choose|i: int|
                    0 <= i < before.len() && (#[trigger] before[i]).id == burns[m].id;
                if i < k {
                    assert(after[i].id == burns[m].id);
                } else {
                    assert(after[i + 1].id == burns[m].id);
                }
            }
        }
    }
}

fn gather_burns(recipes: &[Recipe]) -> (r: Vec<Burn>)
    ensures
        r@ == all_burns(recipes@, recipes@.len()),
{
    let mut r: Vec<Burn> = Vec::new();
    let mut i: usize = 0;
    while i < recipes.len()
        invariant
            i <= recipes.len(),
            r@ == all_burns(recipes@, i as nat),
        decreases recipes.len() - i,
    {
        let recipe = &recipes[i];
        let ghost so_far = r@;
        let mut k: usize = 0;
        assert(r@ =~= so_far + burns_of(*recipe, 0));
        while k < recipe.parts.len()
            invariant
                k <= recipe.parts.len(),
                r@ == so_far + burns_of(*recipe, k as nat),
            decreases recipe.parts.len() - k,
        {
            if let Some(cdm) = recipe.parts[k].cdm {
                r.push(Burn { id: recipe.parts[k].id, rate: recipe.loss.times(cdm) });
            }
            assert(r@ =~= so_far + burns_of(*recipe, (k + 1) as nat));
            k = k + 1;
        }
        i = i + 1;
    }
    r
}

fn rate_of(seen: &Vec<Burn>, id: u32, Ghost(burns): Ghost<Seq<Burn>>) -> (r: Single)
    requires
        are_rates(seen@, burns, burns.len()),
    ensures
        r == fastest_of(burns, id, burns.len()),
{
    let mut i: usize = 0;
    while i < seen.len()
        invariant
            i <= seen.len(),
            are_rates(seen@, burns, burns.len()),
            forall|k: int| 0 <= k < i ==> (#[trigger] seen@[k]).id != id,
        decreases seen.len() - i,
    {
        if seen[i].id == id {
            return seen[i].rate;
        }
        i = i + 1;
    }
    proof {
        assert forall|k: int| 0 <= k < burns.len() implies (#[trigger] burns[k]).id != id by {
            let j = choose|j: int| 0 <= j < seen@.len() && (#[trigger] seen@[j]).id == burns[k].id;
            assert(seen@[j].id != id);
        }
        lemma_unburnt(burns, id, burns.len());
    }
    Single { bits: 0 }
}

/// How many of each spell component to carry, in the order of their numbers,
/// with `tapers_keep` of the component `yardstick` kept; none with no taper
/// kept.
///
/// A taper is the yardstick: everything else is scaled to it by how fast it
/// burns relative to a taper, and a component used by several spells is stocked
/// for the one that burns it fastest. There is a floor under everything, twenty
/// to the thousand. With no taper in any formula the configured number stands
/// for everything.
pub fn component_targets(recipes: &[Recipe], yardstick: u32, tapers_keep: u32) -> (r: Vec<Target>)
    ensures
        tapers_keep == 0 ==> r@.len() == 0,
        tapers_keep > 0 ==> are_targets(
            r@,
            all_burns(recipes@, recipes@.len()),
            yardstick,
            tapers_keep,
        ),
{
    let mut out: Vec<Target> = Vec::new();
    if tapers_keep == 0 {
        return out;
    }
    let burns = gather_burns(recipes);
    let mut seen: Vec<Burn> = Vec::new();
    let mut i: usize = 0;
    while i < burns.len()
        invariant
            i <= burns.len(),
            are_rates(seen@, burns@, i as nat),
        decreases burns.len() - i,
    {
        take_in(&mut seen, burns[i], Ghost(burns@), Ghost(i as nat));
        i = i + 1;
    }
    let taper = rate_of(&seen, yardstick, Ghost(burns@));
    let scaled = (Single { bits: 0 }).lt(taper);
    let floor: u32 = if tapers_keep / 50 == 0 {
        1
    } else {
        tapers_keep / 50
    };
    let whole = Single::from_u32(tapers_keep);
    i = 0;
    while i < seen.len()
        invariant
            i <= seen.len(),
            out.len() == i,
            are_rates(seen@, burns@, burns@.len()),
            taper == fastest_of(burns@, yardstick, burns@.len()),
            scaled == (Single { bits: 0 }).below(taper),
            floor == if tapers_keep / 50 == 0 {
                1
            } else {
                (tapers_keep / 50) as u32
            },
            whole == Single::whole(tapers_keep as int),
            forall|k: int|
                0 <= k < i ==> (#[trigger] out@[k]).id == seen@[k].id && out@[k].keep == target_of(
                    burns@,
                    yardstick,
                    seen@[k].id,
                    tapers_keep,
                ),
        decreases seen.len() - i,
    {
        let want: u32 = if scaled {
            whole.times(seen[i].rate).over(taper).round_u32()
        } else {
            tapers_keep
        };
        proof {
            reveal(target_of);
        }
        out.push(
            Target {
                id: seen[i].id,
                keep: if want < floor {
                    floor
                } else {
                    want
                },
            },
        );
        i = i + 1;
    }
    proof {
        let all = burns@;
        assert(all.take(all.len() as int) =~= all);
        assert forall|a: int, b: int| 0 <= a < b < out@.len() implies (#[trigger] out@[a]).id < (
        #[trigger] out@[b]).id by {
            assert(seen@[a].id < seen@[b].id);
        }
        assert forall|a: int| 0 <= a < out@.len() implies burnt(all, (#[trigger] out@[a]).id) by {
            assert(burnt(all.take(all.len() as int), seen@[a].id));
        }
        assert forall|id: u32| #[trigger] burnt(all, id) implies target_listed(out@, id) by {
            let k = choose|k: int| 0 <= k < all.len() && (#[trigger] all[k]).id == id;
            let j = choose|j: int| 0 <= j < seen@.len() && (#[trigger] seen@[j]).id == all[k].id;
            assert(out@[j].id == id);
        }
    }
    out
}

/// The weenie class of the item that a component is.
#[derive(Clone, Copy, Debug, PartialEq, Eq, Structural)]
pub struct ClassOf {
    pub id: u32,
    pub wcid: u32,
}

/// The weenie class of a component, the first given from `i` on.
pub open spec fn class_from(classes: Seq<ClassOf>, id: u32, i: int) -> Option<u32>
    decreases classes.len() - i,
{
    if i >= classes.len() {
        None
    } else if classes[i].id == id {
        Some(classes[i].wcid)
    } else {
        class_from(classes, id, i + 1)
    }
}

fn class_of(classes: &[ClassOf], id: u32) -> (r: Option<u32>)
    ensures
        r == class_from(classes@, id, 0),
{
    let mut i: usize = 0;
    while i < classes.len()
        invariant
            i <= classes.len(),
            class_from(classes@, id, 0) == class_from(classes@, id, i as int),
        decreases classes.len() - i,
    {
        if classes[i].id == id {
            return Some(classes[i].wcid);
        }
        i = i + 1;
    }
    None
}

/// The weenie classes of the first `n` components, of those that have one.
pub open spec fn classes_of(targets: Seq<Target>, classes: Seq<ClassOf>, n: nat) -> Seq<u32>
    decreases n,
{
    if n == 0 {
        seq![]
    } else {
        let rest = classes_of(targets, classes, (n - 1) as nat);
        match class_from(classes, targets[n - 1].id, 0) {
            Some(w) => rest.push(w),
            None => rest,
        }
    }
}

/// Any number of tapers that names every component burnt.
pub const ENOUGH_TO_NAME_THEM: u32 = 1_000;

/// The spell components this character's spells burn, by weenie class: what it
/// goes to town to buy, as against what it goes to town to sell. Which
/// components, not how many.
pub fn burns(recipes: &[Recipe], yardstick: u32, classes: &[ClassOf]) -> (r: Vec<u32>)
    ensures
        exists|targets: Seq<Target>|
            {
                &&& #[trigger] are_targets(
                    targets,
                    all_burns(recipes@, recipes@.len()),
                    yardstick,
                    ENOUGH_TO_NAME_THEM,
                )
                &&& r@ == classes_of(targets, classes@, targets.len())
            },
{
    let targets = component_targets(recipes, yardstick, ENOUGH_TO_NAME_THEM);
    let mut r: Vec<u32> = Vec::new();
    let mut i: usize = 0;
    while i < targets.len()
        invariant
            i <= targets.len(),
            r@ == classes_of(targets@, classes@, i as nat),
        decreases targets.len() - i,
    {
        if let Some(w) = class_of(classes, targets[i].id) {
            r.push(w);
        }
        i = i + 1;
    }
    assert(are_targets(
        targets@,
        all_burns(recipes@, recipes@.len()),
        yardstick,
        ENOUGH_TO_NAME_THEM,
    ));
    r
}

/// The spells that autoplay may cast, by what it casts them for.
pub struct Book<'a> {
    /// The spells the character knows.
    pub known: &'a [u32],
    /// The buffs it should be wearing, and those the player named.
    pub buffs: &'a [u32],
    pub named_buffs: &'a [u32],
    /// Every bolt in the book, and those the player named, if the player named
    /// any.
    pub bolts: &'a [u32],
    pub bolts_named: bool,
    pub named_bolts: &'a [u32],
    /// A vulnerability for each element that is cast at another, and the
    /// imperils.
    pub vulnerabilities: &'a [u32],
    pub imperils: &'a [u32],
    /// The team's debuffs, and the heal a healer casts on another.
    pub debuffs: &'a [u32],
    pub healer: bool,
    pub heal_other: Option<u32>,
    /// What heals it, and what turns stamina and mana to health.
    pub heals: &'a [u32],
    pub to_health: &'a [u32],
    /// What keeps its stamina and mana up, where it looks after them.
    pub manages_mana: bool,
    pub stamina: &'a [u32],
    pub to_mana: &'a [u32],
    /// Those of the spells it knows that are recalls.
    pub recalls: &'a [u32],
}

/// A spell is one that autoplay casts.
pub open spec fn casts(b: Book, id: u32) -> bool {
    let knows = b.known@.contains(id);
    ||| b.buffs@.contains(id)
    ||| b.named_buffs@.contains(id)
    ||| !b.bolts_named && b.bolts@.contains(id)
    ||| b.bolts_named && b.named_bolts@.contains(id)
    ||| knows && b.vulnerabilities@.contains(id)
    ||| b.imperils@.contains(id)
    ||| b.debuffs@.contains(id)
    ||| b.healer && b.heal_other == Some(id)
    ||| knows && b.heals@.contains(id)
    ||| knows && b.to_health@.contains(id)
    ||| b.manages_mana && knows && b.stamina@.contains(id)
    ||| b.manages_mana && knows && b.to_mana@.contains(id)
    ||| knows && b.recalls@.contains(id)
}

/// Spells in order, each once.
pub open spec fn ascending(s: Seq<u32>) -> bool {
    forall|i: int, j: int| 0 <= i < j < s.len() ==> s[i] < s[j]
}

/// Put one spell in, where it is not there yet.
fn put_spell(out: &mut Vec<u32>, id: u32)
    requires
        ascending(old(out)@),
    ensures
        ascending(final(out)@),
        forall|x: u32| #[trigger] final(out)@.contains(x) <==> old(out)@.contains(x) || x == id,
{
    let ghost before = out@;
    let mut k: usize = 0;
    while k < out.len() && out[k] < id
        invariant
            k <= out.len(),
            out@ == before,
            forall|i: int| 0 <= i < k ==> out@[i] < id,
        decreases out.len() - k,
    {
        k = k + 1;
    }
    if k < out.len() && out[k] == id {
        assert(before[k as int] == id);
        return;
    }
    out.insert(k, id);
    proof {
        assert(out@[k as int] == id);
        assert forall|x: u32| out@.contains(x) <==> before.contains(x) || x == id by {
            if before.contains(x) {
                let i = choose|i: int| 0 <= i < before.len() && before[i] == x;
                if i < k {
                    assert(out@[i] == x);
                } else {
                    assert(out@[i + 1] == x);
                }
            }
            if out@.contains(x) && x != id {
                let i = choose|i: int| 0 <= i < out@.len() && out@[i] == x;
                if i < k {
                    assert(before[i] == x);
                } else {
                    assert(before[i - 1] == x);
                }
            }
        }
    }
}

fn is_known(known: &[u32], id: u32) -> (r: bool)
    ensures
        r == known@.contains(id),
{
    let mut i: usize = 0;
    while i < known.len()
        invariant
            i <= known.len(),
            forall|k: int| 0 <= k < i ==> known@[k] != id,
        decreases known.len() - i,
    {
        if known[i] == id {
            return true;
        }
        i = i + 1;
    }
    false
}

/// Put some spells in, all of them or only those that are known.
fn put_spells(out: &mut Vec<u32>, spells: &[u32], only_known: bool, known: &[u32])
    requires
        ascending(old(out)@),
    ensures
        ascending(final(out)@),
        forall|x: u32| #[trigger]
            final(out)@.contains(x) <==> old(out)@.contains(x) || (spells@.contains(x) && (
            !only_known || known@.contains(x))),
{
    let ghost before = out@;
    let mut i: usize = 0;
    while i < spells.len()
        invariant
            i <= spells.len(),
            ascending(out@),
            forall|x: u32| #[trigger]
                out@.contains(x) <==> before.contains(x) || (spells@.take(i as int).contains(x) && (
                !only_known || known@.contains(x))),
        decreases spells.len() - i,
    {
        let id: u32 = spells[i];
        let ghost so_far = out@;
        if !only_known || is_known(known, id) {
            put_spell(out, id);
        }
        proof {
            let now = spells@.take(i + 1);
            let earlier = spells@.take(i as int);
            assert forall|x: u32| #[trigger] now.contains(x) <==> earlier.contains(x) || x == id by {
                if earlier.contains(x) {
                    let k = choose|k: int| 0 <= k < earlier.len() && earlier[k] == x;
                    assert(now[k] == x);
                }
                if x == id {
                    assert(now[i as int] == x);
                }
                if now.contains(x) && x != id {
                    let k = choose|k: int| 0 <= k < now.len() && now[k] == x;
                    assert(earlier[k] == x);
                }
            }
        }
        i = i + 1;
    }
    assert(spells@.take(i as int) =~= spells@);
}

/// Every spell autoplay casts, in one list, in order and each once: what the
/// restock list stocks components for, and what the counter's component guard
/// keeps. All of them, not only the buffs and the bolts. Known, not castable:
/// whether a spell can be cast this moment is mostly a question of whether its
/// components are in the pack, which is what this list is asked in order to
/// answer.
pub fn spells_cast(b: &Book) -> (r: Vec<u32>)
    ensures
        ascending(r@),
        forall|id: u32| #[trigger] r@.contains(id) <==> casts(*b, id),
{
    let mut out: Vec<u32> = Vec::new();
    put_spells(&mut out, b.buffs, false, b.known);
    put_spells(&mut out, b.named_buffs, false, b.known);
    if b.bolts_named {
        put_spells(&mut out, b.named_bolts, false, b.known);
    } else {
        put_spells(&mut out, b.bolts, false, b.known);
    }
    put_spells(&mut out, b.vulnerabilities, true, b.known);
    put_spells(&mut out, b.imperils, false, b.known);
    put_spells(&mut out, b.debuffs, false, b.known);
    if b.healer {
        if let Some(id) = b.heal_other {
            put_spell(&mut out, id);
        }
    }
    put_spells(&mut out, b.heals, true, b.known);
    put_spells(&mut out, b.to_health, true, b.known);
    if b.manages_mana {
        put_spells(&mut out, b.stamina, true, b.known);
        put_spells(&mut out, b.to_mana, true, b.known);
    }
    put_spells(&mut out, b.recalls, true, b.known);
    out
}

/// How much of the first `n` things is ammunition.
pub open spec fn rounds_of(things: Seq<Thing>, n: nat) -> int
    decreases n,
{
    if n == 0 {
        0
    } else {
        rounds_of(things, (n - 1) as nat) + if is_ammo(things[n - 1]) {
            at_least_one(things[n - 1].stack) as int
        } else {
            0
        }
    }
}

proof fn lemma_rounds_grow(things: Seq<Thing>, i: nat, n: nat)
    requires
        i <= n,
    ensures
        0 <= rounds_of(things, i) <= rounds_of(things, n),
    decreases n,
{
    if i < n {
        lemma_rounds_grow(things, i, (n - 1) as nat);
    } else if n > 0 {
        lemma_rounds_grow(things, (n - 1) as nat, (n - 1) as nat);
    }
}

/// Ammunition carried, wielded and in the packs, for a bow or crossbow in hand:
/// the kind and how much. `launcher` is the kind that the launcher in hand
/// takes, and `mine` everything worn and carried.
pub fn ammo_carried(launcher: Option<u32>, mine: &[Thing]) -> (r: Option<(u32, u32)>)
    requires
        rounds_of(mine@, mine@.len()) <= u32::MAX,
    ensures
        r == match launcher {
            Some(kind) => if kind == 0 {
                None
            } else {
                Some((kind, rounds_of(mine@, mine@.len()) as u32))
            },
            None => None,
        },
        r is Some <==> launcher is Some && launcher->0 != 0,
        match r {
            Some((kind, _)) => launcher == Some(kind),
            None => true,
        },
{
    let kind: u32 = match launcher {
        Some(kind) => kind,
        None => 0,
    };
    if kind == 0 {
        return None;
    }
    let mut sum: u32 = 0;
    let mut i: usize = 0;
    while i < mine.len()
        invariant
            i <= mine.len(),
            rounds_of(mine@, mine@.len()) <= u32::MAX,
            sum == rounds_of(mine@, i as nat),
        decreases mine.len() - i,
    {
        proof {
            lemma_rounds_grow(mine@, (i + 1) as nat, mine@.len());
        }
        if mine[i].valid_locations & MISSILE_AMMO != 0 {
            sum = sum + (if mine[i].stack == 0 {
                1
            } else {
                mine[i].stack
            });
        }
        i = i + 1;
    }
    Some((kind, sum))
}

/// A way to make ammunition: from this, worked with that.
#[derive(Clone, Copy, Debug, PartialEq, Eq, Structural)]
pub struct Craft {
    pub source: u32,
    pub target: u32,
}

pub open spec fn carries(things: Seq<Thing>, wcid: u32) -> bool {
    exists|i: int| 0 <= i < things.len() && (#[trigger] things[i]).wcid == wcid
}

fn does_carry(things: &[Thing], wcid: u32) -> (r: bool)
    ensures
        r == carries(things@, wcid),
{
    let mut i: usize = 0;
    while i < things.len()
        invariant
            i <= things.len(),
            forall|k: int| 0 <= k < i ==> (#[trigger] things@[k]).wcid != wcid,
        decreases things.len() - i,
    {
        if things[i].wcid == wcid {
            return true;
        }
        i = i + 1;
    }
    false
}

/// Whether more ammunition could be made from what is carried, by one of the
/// ways to make it.
pub fn can_craft_ammo(craft: bool, ways: &[Craft], things: &[Thing]) -> (r: bool)
    ensures
        r == (craft && exists|i: int|
            0 <= i < ways@.len() && carries(things@, (#[trigger] ways@[i]).source) && carries(
                things@,
                ways@[i].target,
            )),
{
    if !craft {
        return false;
    }
    let mut i: usize = 0;
    while i < ways.len()
        invariant
            craft,
            i <= ways.len(),
            forall|k: int|
                0 <= k < i ==> !(carries(things@, (#[trigger] ways@[k]).source) && carries(
                    things@,
                    ways@[k].target,
                )),
        decreases ways.len() - i,
    {
        if does_carry(things, ways[i].source) && does_carry(things, ways[i].target) {
            return true;
        }
        i = i + 1;
    }
    false
}

} // verus!
