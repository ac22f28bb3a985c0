//! What holds of what spells burn and what is shot.

use crate::casting::{
    all_burns, are_targets, burns_of, burnt, casts, class_from, classes_of, fastest_of, rounds_of,
    target_of, Book, Burn, ClassOf, Recipe, Target,
};
use crate::single::Single;
use crate::sums::total;
use crate::things::Thing;
use vstd::prelude::*;

verus! {

/// A spell burns a component at a rate: it is one of its parts, one that can be
/// lost, and the rate is how readily the spell loses any times how readily that
/// one is lost.
pub open spec fn burns_at(r: Recipe, id: u32, rate: Single) -> bool {
    exists|k: int|
        0 <= k < r.parts@.len() && (#[trigger] r.parts@[k]).id == id && r.parts@[k].cdm is Some
            && rate == r.loss.product(r.parts@[k].cdm->0)
}

proof fn lemma_burns_of(r: Recipe, n: nat, b: Burn)
    requires
        n <= r.parts@.len(),
    ensures
        burns_of(r, n).contains(b) <==> exists|k: int|
            0 <= k < n && (#[trigger] r.parts@[k]).id == b.id && r.parts@[k].cdm is Some && b.rate
                == r.loss.product(r.parts@[k].cdm->0),
    decreases n,
{
    if n > 0 {
        lemma_burns_of(r, (n - 1) as nat, b);
        let before = burns_of(r, (n - 1) as nat);
        let all = burns_of(r, n);
        let part = r.parts@[n - 1];
        if before.contains(b) {
            let i = choose|i: int| 0 <= i < before.len() && before[i] == b;
            assert(all[i] == b);
        }
        if part.cdm is Some && part.id == b.id && b.rate == r.loss.product(part.cdm->0) {
            assert(all[all.len() - 1] == b);
        }
        if all.contains(b) {
            let i = choose|i: int| 0 <= i < all.len() && all[i] == b;
            if i < before.len() {
                assert(before[i] == b);
            }
        }
    }
}

proof fn lemma_all_burns(recipes: Seq<Recipe>, n: nat, b: Burn)
    requires
        n <= recipes.len(),
    ensures
        all_burns(recipes, n).contains(b) <==> exists|i: int|
            0 <= i < n && burns_at(#[trigger] recipes[i], b.id, b.rate),
    decreases n,
{
    if n > 0 {
        lemma_all_burns(recipes, (n - 1) as nat, b);
        let r = recipes[n - 1];
        lemma_burns_of(r, r.parts@.len(), b);
        let before = all_burns(recipes, (n - 1) as nat);
        let more = burns_of(r, r.parts@.len());
        let all = all_burns(recipes, n);
        if before.contains(b) {
            let i = choose|i: int| 0 <= i < before.len() && before[i] == b;
            assert(all[i] == b);
        }
        if more.contains(b) {
            let i = choose|i: int| 0 <= i < more.len() && more[i] == b;
            assert(all[before.len() + i] == b);
        }
        if all.contains(b) {
            let i = choose|i: int| 0 <= i < all.len() && all[i] == b;
            if i < before.len() {
                assert(before[i] == b);
            } else {
                assert(more[i - before.len()] == b);
            }
        }
    }
}

/// What the spells burn is what each of them does, and nothing else.
pub proof fn law_spells_burn_what_each_burns(recipes: Seq<Recipe>, id: u32, rate: Single)
    ensures
        all_burns(recipes, recipes.len()).contains(Burn { id, rate }) <==> exists|i: int|
            0 <= i < recipes.len() && burns_at(#[trigger] recipes[i], id, rate),
{
    lemma_all_burns(recipes, recipes.len(), Burn { id, rate });
}

proof fn lemma_fastest(burns: Seq<Burn>, id: u32, n: nat)
    requires
        n <= burns.len(),
    ensures
        ({
            let most = fastest_of(burns, id, n);
            &&& !most.nan()
            &&& (Single { bits: 0 }).at_most(most)
            &&& forall|i: int|
                0 <= i < n && (#[trigger] burns[i]).id == id && !burns[i].rate.nan()
                    ==> burns[i].rate.at_most(most)
            &&& most == (Single { bits: 0 }) || exists|i: int|
                0 <= i < n && (#[trigger] burns[i]).id == id && burns[i].rate == most
        }),
    decreases n,
{
    if n > 0 {
        lemma_fastest(burns, id, (n - 1) as nat);
        assert(burns[n - 1] == burns[n - 1]);
    }
}

/// A component burns as fast as the spell that burns it fastest burns it: none
/// burns it faster, and one burns it as fast unless none burns it at all.
pub proof fn law_the_fastest_burn_counts(burns: Seq<Burn>, id: u32)
    ensures
        ({
            let most = fastest_of(burns, id, burns.len());
            &&& forall|i: int|
                0 <= i < burns.len() && (#[trigger] burns[i]).id == id && !burns[i].rate.nan()
                    ==> burns[i].rate.at_most(most)
            &&& most == (Single { bits: 0 }) || exists|i: int|
                0 <= i < burns.len() && (#[trigger] burns[i]).id == id && burns[i].rate == most
        }),
{
    lemma_fastest(burns, id, burns.len());
}

/// So many tapers are kept, and of another component so many as burn in the time
/// those do; but at least a fiftieth of the tapers, and one in any case. Where no
/// taper burns, as many are kept of each.
pub proof fn law_components_are_kept_by_how_they_burn(
    out: Seq<Target>,
    burns: Seq<Burn>,
    yardstick: u32,
    tapers: u32,
    i: int,
)
    requires
        are_targets(out, burns, yardstick, tapers),
        0 <= i < out.len(),
    ensures
        ({
            let taper = fastest_of(burns, yardstick, burns.len());
            let mine = fastest_of(burns, out[i].id, burns.len());
            let wanted = Single::whole(tapers as int).product(mine).quotient(taper).near();
            let burnable = (Single { bits: 0 }).below(taper);
            &&& out[i].keep >= 1
            &&& out[i].keep >= tapers / 50
            &&& !burnable && tapers > 0 ==> out[i].keep == tapers
            &&& burnable ==> out[i].keep >= wanted
            &&& burnable && wanted >= 1 && wanted >= tapers / 50 ==> out[i].keep == wanted
            &&& burnable && !(wanted >= 1 && wanted >= tapers / 50) ==> out[i].keep <= 1
                || out[i].keep == tapers / 50
        }),
{
    reveal(target_of);
}

/// A target is kept of each component that some spell burns, once, and of no
/// other.
pub proof fn law_each_burnt_component_has_one_target(
    out: Seq<Target>,
    burns: Seq<Burn>,
    yardstick: u32,
    tapers: u32,
    id: u32,
)
    requires
        are_targets(out, burns, yardstick, tapers),
    ensures
        (exists|k: int| 0 <= k < burns.len() && (#[trigger] burns[k]).id == id) <==> (exists|
            i: int,
        |
            0 <= i < out.len() && (#[trigger] out[i]).id == id),
        forall|i: int, j: int|
            0 <= i < out.len() && 0 <= j < out.len() && (#[trigger] out[i]).id == (
            #[trigger] out[j]).id ==> i == j,
{
    assert(burnt(burns, id) <==> exists|k: int|
        0 <= k < burns.len() && (#[trigger] burns[k]).id == id);
    if exists|i: int| 0 <= i < out.len() && (#[trigger] out[i]).id == id {
        let i = choose|i: int| 0 <= i < out.len() && (#[trigger] out[i]).id == id;
        assert(burnt(burns, out[i].id));
    }
}

proof fn lemma_class(classes: Seq<ClassOf>, id: u32, i: int)
    requires
        0 <= i <= classes.len(),
        forall|k: int| 0 <= k < i ==> (#[trigger] classes[k]).id != id,
    ensures
        match class_from(classes, id, i) {
            Some(wcid) => exists|k: int|
                0 <= k < classes.len() && (#[trigger] classes[k]).id == id && classes[k].wcid
                    == wcid && forall|j: int| 0 <= j < k ==> (#[trigger] classes[j]).id != id,
            None => forall|k: int| 0 <= k < classes.len() ==> (#[trigger] classes[k]).id != id,
        },
    decreases classes.len() - i,
{
    if i < classes.len() && classes[i].id != id {
        lemma_class(classes, id, i + 1);
    }
}

/// A component's class is that of the first line that names it.
pub proof fn law_a_class_is_the_first_of_its_component(classes: Seq<ClassOf>, id: u32)
    ensures
        match class_from(classes, id, 0) {
            Some(wcid) => exists|k: int|
                0 <= k < classes.len() && (#[trigger] classes[k]).id == id && classes[k].wcid
                    == wcid && forall|j: int| 0 <= j < k ==> (#[trigger] classes[j]).id != id,
            None => forall|k: int| 0 <= k < classes.len() ==> (#[trigger] classes[k]).id != id,
        },
{
    lemma_class(classes, id, 0);
}

proof fn lemma_classes(targets: Seq<Target>, classes: Seq<ClassOf>, n: nat)
    requires
        n <= targets.len(),
    ensures
        classes_of(targets, classes, n) == targets.take(n as int).filter(
            |t: Target| class_from(classes, t.id, 0) is Some,
        ).map_values(|t: Target| class_from(classes, t.id, 0)->0),
    decreases n,
{
    reveal(Seq::filter);
    let p = |t: Target| class_from(classes, t.id, 0) is Some;
    let f = |t: Target| class_from(classes, t.id, 0)->0;
    let all = targets.take(n as int);
    if n > 0 {
        lemma_classes(targets, classes, (n - 1) as nat);
        assert(all.drop_last() =~= targets.take(n - 1));
        assert(all.last() == targets[n - 1]);
    }
    assert(classes_of(targets, classes, n) =~= all.filter(p).map_values(f));
}

/// Every component with a class is named by it, in order.
pub proof fn law_every_component_with_a_class_is_named(
    targets: Seq<Target>,
    classes: Seq<ClassOf>,
)
    ensures
        classes_of(targets, classes, targets.len()) == targets.filter(
            |t: Target| class_from(classes, t.id, 0) is Some,
        ).map_values(|t: Target| class_from(classes, t.id, 0)->0),
{
    lemma_classes(targets, classes, targets.len());
    assert(targets.take(targets.len() as int) =~= targets);
}

/// What a character casts: its buffs, those it was told and those it chose; the
/// bolts it was told, or where it was told none those it chose; what weakens and
/// imperils; healing of others where it heals; and what it knows that makes
/// vulnerable, heals, turns into health or, where it looks after its mana, into
/// stamina or mana, or recalls it.
pub proof fn law_what_a_character_casts(b: Book, id: u32)
    ensures
        b.buffs@.contains(id) ==> casts(b, id),
        b.named_buffs@.contains(id) ==> casts(b, id),
        b.bolts@.contains(id) && !b.bolts_named ==> casts(b, id),
        b.named_bolts@.contains(id) && b.bolts_named ==> casts(b, id),
        b.imperils@.contains(id) ==> casts(b, id),
        b.debuffs@.contains(id) ==> casts(b, id),
        b.healer && b.heal_other == Some(id) ==> casts(b, id),
        b.known@.contains(id) && b.vulnerabilities@.contains(id) ==> casts(b, id),
        b.known@.contains(id) && b.heals@.contains(id) ==> casts(b, id),
        b.known@.contains(id) && b.to_health@.contains(id) ==> casts(b, id),
        b.known@.contains(id) && b.manages_mana && b.stamina@.contains(id) ==> casts(b, id),
        b.known@.contains(id) && b.manages_mana && b.to_mana@.contains(id) ==> casts(b, id),
        b.known@.contains(id) && b.recalls@.contains(id) ==> casts(b, id),
        casts(b, id) && !b.known@.contains(id) ==> b.buffs@.contains(id)
            || b.named_buffs@.contains(id) || b.imperils@.contains(id) || b.debuffs@.contains(id)
            || (if b.bolts_named {
            b.named_bolts@.contains(id)
        } else {
            b.bolts@.contains(id)
        }) || (b.healer && b.heal_other == Some(id)),
        casts(b, id) && !b.manages_mana && (b.stamina@.contains(id) || b.to_mana@.contains(id))
            ==> b.buffs@.contains(id) || b.named_buffs@.contains(id) || b.imperils@.contains(id)
            || b.debuffs@.contains(id) || b.bolts@.contains(id) || b.named_bolts@.contains(id)
            || b.vulnerabilities@.contains(id) || b.heals@.contains(id) || b.to_health@.contains(
            id,
        ) || b.recalls@.contains(id) || b.heal_other == Some(id),
{
}

/// How many rounds are carried is how many there are of all that can be shot.
pub proof fn law_every_round_counts(things: Seq<Thing>)
    ensures
        rounds_of(things, things.len()) == total(
            things.map_values(
                |t: Thing|
                    if t.valid_locations & 0x80_0000 == 0 {
                        0
                    } else if t.stack == 0 {
                        1
                    } else {
                        t.stack as int
                    },
            ),
        ),
{
    lemma_rounds(things, things.len());
    assert(things.take(things.len() as int) =~= things);
}

proof fn lemma_rounds(things: Seq<Thing>, n: nat)
    requires
        n <= things.len(),
    ensures
        rounds_of(things, n) == total(
            things.take(n as int).map_values(
                |t: Thing|
                    if t.valid_locations & 0x80_0000 == 0 {
                        0
                    } else if t.stack == 0 {
                        1
                    } else {
                        t.stack as int
                    },
            ),
        ),
    decreases n,
{
    let f = |t: Thing|
        if t.valid_locations & 0x80_0000 == 0 {
            0
        } else if t.stack == 0 {
            1
        } else {
            t.stack as int
        };
    if n > 0 {
        lemma_rounds(things, (n - 1) as nat);
        assert(things.take(n as int).map_values(f).drop_last() =~= things.take(n - 1).map_values(
            f,
        ));
    }
}

} // verus!
