//! What holds of the offers that experience is spent on.

use crate::raises::{Offer, Raise};
use crate::spending::{
    attribute_offers, attribute_weight, best_melee, fed, feeds, formula_at, is_melee_skill,
    skill_offers, spec_fighting_skill, spec_raise_offers, spec_raises_a_maximum, spec_skill_weight,
    vital_offers, vital_weight, Formula, Sheet, SkillLine, Stance, StatLine,
};
use vstd::prelude::*;

verus! {

/// Some offer is of this raise, at this cost.
pub open spec fn on_offer(offers: Seq<Offer>, raise: Raise, cost: u32) -> bool {
    exists|k: int| 0 <= k < offers.len() && (#[trigger] offers[k]).raise == raise && offers[k].cost
        == cost
}

/// Some skill of the sheet that is trained or better has this id, and its next
/// rank this price.
pub open spec fn trained_at(skills: Seq<SkillLine>, id: u32, cost: u32) -> bool {
    exists|i: int|
        0 <= i < skills.len() && (#[trigger] skills[i]).id == id && skills[i].advancement >= 2
            && skills[i].line.cost == Some(cost)
}

/// Every trained skill with a price is on offer at that price, and no other
/// skill is.
pub open spec fn offers_the_trained(sheet: Sheet, offers: Seq<Offer>) -> bool {
    &&& forall|i: int|
        #![trigger sheet.skills@[i]]
        0 <= i < sheet.skills@.len() && sheet.skills@[i].advancement >= 2
            && sheet.skills@[i].line.cost is Some ==> on_offer(
            offers,
            Raise::Skill(sheet.skills@[i].id),
            sheet.skills@[i].line.cost->0,
        )
    &&& forall|k: int|
        0 <= k < offers.len() && (#[trigger] offers[k]).raise is Skill ==> trained_at(
            sheet.skills@,
            offers[k].raise->Skill_0,
            offers[k].cost,
        )
}

/// A price stands on line `i`, and is this one.
pub open spec fn priced_at(lines: Seq<StatLine>, i: usize, cost: u32) -> bool {
    i < lines.len() && lines[i as int].cost == Some(cost)
}

/// Each of the six attributes and three vitals with a price is on offer at that
/// price, and none without.
pub open spec fn offers_the_stats(sheet: Sheet, offers: Seq<Offer>) -> bool {
    &&& forall|i: usize|
        #![trigger sheet.attributes@[i as int]]
        i < 6 && i < sheet.attributes@.len() && sheet.attributes@[i as int].cost is Some
            ==> on_offer(offers, Raise::Attribute(i), sheet.attributes@[i as int].cost->0)
    &&& forall|i: usize|
        #![trigger sheet.vitals@[i as int]]
        i < 3 && i < sheet.vitals@.len() && sheet.vitals@[i as int].cost is Some ==> on_offer(
            offers,
            Raise::Vital(i),
            sheet.vitals@[i as int].cost->0,
        )
    &&& forall|k: int|
        0 <= k < offers.len() ==> match (#[trigger] offers[k]).raise {
            Raise::Attribute(i) => i < 6 && priced_at(sheet.attributes@, i, offers[k].cost),
            Raise::Vital(i) => i < 3 && priced_at(sheet.vitals@, i, offers[k].cost),
            Raise::Skill(_) => true,
        }
}

/// Where a raise stands in the row: skills, then attributes, then vitals, each of
/// the last two by its number.
pub open spec fn row_place(raise: Raise) -> int {
    match raise {
        Raise::Skill(_) => -1,
        Raise::Attribute(i) => i as int,
        Raise::Vital(i) => 0x1_0000_0000_0000_0000 + i,
    }
}

/// Nothing but skills is on offer twice, and the row is in order.
pub open spec fn offered_in_order(offers: Seq<Offer>) -> bool {
    forall|k: int, l: int|
        0 <= k < l < offers.len() ==> row_place((#[trigger] offers[k]).raise) < row_place(
            (#[trigger] offers[l]).raise,
        ) || (offers[k].raise is Skill && offers[l].raise is Skill)
}

/// What is on offer matters as much as what it is of does.
pub open spec fn weighed_each(
    formulas: Seq<Formula>,
    weapon_skill: Option<u32>,
    offers: Seq<Offer>,
) -> bool {
    let caster = weapon_skill == Some(0u32);
    forall|k: int|
        0 <= k < offers.len() ==> (#[trigger] offers[k]).weight.bits == match offers[k].raise {
            Raise::Skill(id) => spec_skill_weight(id, weapon_skill, caster),
            Raise::Attribute(i) => attribute_weight(formulas, weapon_skill, i as int),
            Raise::Vital(i) => vital_weight(caster, i as int),
        }
}

proof fn lemma_skill_offers(skills: Seq<SkillLine>, weapon_skill: Option<u32>, n: nat)
    requires
        n <= skills.len(),
    ensures
        ({
            let o = skill_offers(skills, weapon_skill, n);
            &&& forall|i: int|
                #![trigger skills[i]]
                0 <= i < n && skills[i].advancement >= 2 && skills[i].line.cost is Some
                    ==> on_offer(o, Raise::Skill(skills[i].id), skills[i].line.cost->0)
            &&& forall|k: int|
                0 <= k < o.len() ==> (#[trigger] o[k]).raise is Skill && trained_at(
                    skills,
                    o[k].raise->Skill_0,
                    o[k].cost,
                ) && o[k].weight.bits == spec_skill_weight(
                    o[k].raise->Skill_0,
                    weapon_skill,
                    weapon_skill == Some(0u32),
                )
        }),
    decreases n,
{
    if n > 0 {
        lemma_skill_offers(skills, weapon_skill, (n - 1) as nat);
        let before = skill_offers(skills, weapon_skill, (n - 1) as nat);
        let o = skill_offers(skills, weapon_skill, n);
        let s = skills[n - 1];
        assert forall|i: int|
            #![trigger skills[i]]
            0 <= i < n && skills[i].advancement >= 2 && skills[i].line.cost is Some implies on_offer(
            o,
            Raise::Skill(skills[i].id),
            skills[i].line.cost->0,
        ) by {
            if i < n - 1 {
                let k = choose|k: int|
                    0 <= k < before.len() && (#[trigger] before[k]).raise == Raise::Skill(
                        skills[i].id,
                    ) && before[k].cost == skills[i].line.cost->0;
                assert(o[k] == before[k]);
            } else {
                assert(o[o.len() - 1].raise == Raise::Skill(s.id));
            }
        }
        assert forall|k: int| 0 <= k < o.len() implies (#[trigger] o[k]).raise is Skill
            && trained_at(skills, o[k].raise->Skill_0, o[k].cost) && o[k].weight.bits
            == spec_skill_weight(
            o[k].raise->Skill_0,
            weapon_skill,
            weapon_skill == Some(0u32),
        ) by {
            if k < before.len() {
                assert(o[k] == before[k]);
            } else {
                assert(skills[n - 1].id == s.id);
            }
        }
    }
}

proof fn lemma_attribute_offers(
    lines: Seq<StatLine>,
    formulas: Seq<Formula>,
    weapon_skill: Option<u32>,
    n: nat,
)
    requires
        n <= 6,
    ensures
        ({
            let o = attribute_offers(lines, formulas, weapon_skill, n);
            &&& forall|i: usize|
                #![trigger lines[i as int]]
                i < n && i < lines.len() && lines[i as int].cost is Some ==> on_offer(
                    o,
                    Raise::Attribute(i),
                    lines[i as int].cost->0,
                )
            &&& forall|k: int|
                0 <= k < o.len() ==> (#[trigger] o[k]).raise is Attribute
                    && o[k].raise->Attribute_0 < n && priced_at(
                    lines,
                    o[k].raise->Attribute_0,
                    o[k].cost,
                ) && o[k].weight.bits == attribute_weight(
                    formulas,
                    weapon_skill,
                    o[k].raise->Attribute_0 as int,
                )
            &&& offered_in_order(o)
        }),
    decreases n,
{
    if n > 0 {
        lemma_attribute_offers(lines, formulas, weapon_skill, (n - 1) as nat);
        let before = attribute_offers(lines, formulas, weapon_skill, (n - 1) as nat);
        let o = attribute_offers(lines, formulas, weapon_skill, n);
        assert forall|i: usize|
            #![trigger lines[i as int]]
            i < n && i < lines.len() && lines[i as int].cost is Some implies on_offer(
            o,
            Raise::Attribute(i),
            lines[i as int].cost->0,
        ) by {
            if i < n - 1 {
                let k = choose|k: int|
                    0 <= k < before.len() && (#[trigger] before[k]).raise == Raise::Attribute(i)
                        && before[k].cost == lines[i as int].cost->0;
                assert(o[k] == before[k]);
            } else {
                assert(o[o.len() - 1].raise == Raise::Attribute(i));
            }
        }
        assert forall|k: int| 0 <= k < before.len() implies o[k] == #[trigger] before[k] by {}
    }
}

proof fn lemma_vital_offers(lines: Seq<StatLine>, caster: bool, n: nat)
    requires
        n <= 3,
    ensures
        ({
            let o = vital_offers(lines, caster, n);
            &&& forall|i: usize|
                #![trigger lines[i as int]]
                i < n && i < lines.len() && lines[i as int].cost is Some ==> on_offer(
                    o,
                    Raise::Vital(i),
                    lines[i as int].cost->0,
                )
            &&& forall|k: int|
                0 <= k < o.len() ==> (#[trigger] o[k]).raise is Vital && o[k].raise->Vital_0 < n
                    && priced_at(lines, o[k].raise->Vital_0, o[k].cost) && o[k].weight.bits
                    == vital_weight(caster, o[k].raise->Vital_0 as int)
            &&& offered_in_order(o)
        }),
    decreases n,
{
    if n > 0 {
        lemma_vital_offers(lines, caster, (n - 1) as nat);
        let before = vital_offers(lines, caster, (n - 1) as nat);
        let o = vital_offers(lines, caster, n);
        assert forall|i: usize|
            #![trigger lines[i as int]]
            i < n && i < lines.len() && lines[i as int].cost is Some implies on_offer(
            o,
            Raise::Vital(i),
            lines[i as int].cost->0,
        ) by {
            if i < n - 1 {
                let k = choose|k: int|
                    0 <= k < before.len() && (#[trigger] before[k]).raise == Raise::Vital(i)
                        && before[k].cost == lines[i as int].cost->0;
                assert(o[k] == before[k]);
            } else {
                assert(o[o.len() - 1].raise == Raise::Vital(i));
            }
        }
        assert forall|k: int| 0 <= k < before.len() implies o[k] == #[trigger] before[k] by {}
    }
}

proof fn lemma_found_in(a: Seq<Offer>, b: Seq<Offer>, c: Seq<Offer>, raise: Raise, cost: u32)
    requires
        on_offer(b, raise, cost),
    ensures
        on_offer(a + b + c, raise, cost),
{
    let k = choose|k: int| 0 <= k < b.len() && (#[trigger] b[k]).raise == raise && b[k].cost == cost;
    assert((a + b + c)[a.len() + k] == b[k]);
}

/// What experience can go on: every skill that is trained or better, every
/// attribute and every vital whose next rank has a price, at that price, and
/// nothing else; each attribute and vital once, in order behind the skills, and
/// each weighed by what it is of.
pub proof fn law_everything_priced_is_on_offer(
    sheet: Sheet,
    formulas: Seq<Formula>,
    weapon_skill: Option<u32>,
    offers: Seq<Offer>,
)
    requires
        offers == spec_raise_offers(sheet, formulas, weapon_skill),
    ensures
        offers_the_trained(sheet, offers),
        offers_the_stats(sheet, offers),
        offered_in_order(offers),
        weighed_each(formulas, weapon_skill, offers),
{
    let caster = weapon_skill == Some(0u32);
    let a = skill_offers(sheet.skills@, weapon_skill, sheet.skills@.len());
    let b = attribute_offers(sheet.attributes@, formulas, weapon_skill, 6);
    let c = vital_offers(sheet.vitals@, caster, 3);
    lemma_skill_offers(sheet.skills@, weapon_skill, sheet.skills@.len());
    lemma_attribute_offers(sheet.attributes@, formulas, weapon_skill, 6);
    lemma_vital_offers(sheet.vitals@, caster, 3);
    assert(offers == a + b + c);
    let none = Seq::<Offer>::empty();
    assert forall|i: int|
        #![trigger sheet.skills@[i]]
        0 <= i < sheet.skills@.len() && sheet.skills@[i].advancement >= 2
            && sheet.skills@[i].line.cost is Some implies on_offer(
        offers,
        Raise::Skill(sheet.skills@[i].id),
        sheet.skills@[i].line.cost->0,
    ) by {
        lemma_found_in(
            none,
            a,
            b + c,
            Raise::Skill(sheet.skills@[i].id),
            sheet.skills@[i].line.cost->0,
        );
        assert(none + a + (b + c) =~= offers);
    }
    assert forall|i: usize|
        #![trigger sheet.attributes@[i as int]]
        i < 6 && i < sheet.attributes@.len() && sheet.attributes@[i as int].cost
            is Some implies on_offer(
        offers,
        Raise::Attribute(i),
        sheet.attributes@[i as int].cost->0,
    ) by {
        lemma_found_in(a, b, c, Raise::Attribute(i), sheet.attributes@[i as int].cost->0);
    }
    assert forall|i: usize|
        #![trigger sheet.vitals@[i as int]]
        i < 3 && i < sheet.vitals@.len() && sheet.vitals@[i as int].cost is Some implies on_offer(
        offers,
        Raise::Vital(i),
        sheet.vitals@[i as int].cost->0,
    ) by {
        lemma_found_in(a + b, c, none, Raise::Vital(i), sheet.vitals@[i as int].cost->0);
        assert(a + b + c + none =~= offers);
    }
    assert forall|k: int| 0 <= k < offers.len() implies (#[trigger] offers[k]) == if k < a.len() {
        a[k]
    } else if k < a.len() + b.len() {
        b[k - a.len()]
    } else {
        c[k - a.len() - b.len()]
    } by {}
}

/// How much a skill matters, as a bit pattern; of numbers not below nought the
/// larger has the larger one.
pub open spec fn weighs(skill: u32, weapon_skill: Option<u32>, caster: bool) -> u32 {
    spec_skill_weight(skill, weapon_skill, caster)
}

/// No skill matters more than the one fought with, which counts as a whole; and
/// every skill matters something.
pub proof fn law_the_skill_fought_with_matters_most(
    skill: u32,
    other: u32,
    weapon_skill: Option<u32>,
    caster: bool,
)
    requires
        weapon_skill == Some(skill),
    ensures
        weighs(skill, weapon_skill, caster) == 0x3f80_0000,
        0 < weighs(other, weapon_skill, caster) <= weighs(skill, weapon_skill, caster),
        // Another weapon's skill is worth a tenth, the least there is.
        other != skill && (other == 41 || 44 <= other <= 50) ==> weighs(other, weapon_skill, caster)
            == 0x3dcc_cccd,
        weighs(other, weapon_skill, caster) >= 0x3dcc_cccd,
{
}

/// Casting raises what the schools of magic are worth, and nothing else: the two
/// that kill count as a whole, life magic as nine tenths, mana conversion as six.
pub proof fn law_a_caster_values_its_magic(skill: u32, weapon_skill: Option<u32>)
    requires
        weapon_skill != Some(skill),
    ensures
        skill == 34 || skill == 43 ==> weighs(skill, weapon_skill, true) == 0x3f80_0000 && weighs(
            skill,
            weapon_skill,
            false,
        ) == 0x3e19_999a,
        skill == 33 ==> weighs(skill, weapon_skill, true) == 0x3f66_6666 && weighs(
            skill,
            weapon_skill,
            false,
        ) == 0x3f19_999a,
        skill == 16 ==> weighs(skill, weapon_skill, true) == 0x3f19_999a && weighs(
            skill,
            weapon_skill,
            false,
        ) == 0x3e4c_cccd,
        skill != 34 && skill != 43 && skill != 33 && skill != 16 ==> weighs(
            skill,
            weapon_skill,
            true,
        ) == weighs(skill, weapon_skill, false),
        weighs(skill, weapon_skill, false) <= weighs(skill, weapon_skill, true),
{
}

/// What keeps a character alive matters to everyone alike: the defences seven
/// tenths and six, healing and the enchantments half, running three tenths; and
/// making arrows half to an archer and a tenth to anybody else.
pub proof fn law_defence_matters_to_everyone(weapon_skill: Option<u32>, caster: bool)
    ensures
        weapon_skill != Some(6u32) ==> weighs(6, weapon_skill, caster) == 0x3f33_3333,
        weapon_skill != Some(7u32) ==> weighs(7, weapon_skill, caster) == 0x3f33_3333,
        weapon_skill != Some(15u32) ==> weighs(15, weapon_skill, caster) == 0x3f19_999a,
        weapon_skill != Some(21u32) ==> weighs(21, weapon_skill, caster) == 0x3f00_0000,
        weapon_skill != Some(31u32) ==> weighs(31, weapon_skill, caster) == 0x3f00_0000,
        weapon_skill != Some(32u32) ==> weighs(32, weapon_skill, caster) == 0x3f00_0000,
        weapon_skill != Some(24u32) ==> weighs(24, weapon_skill, caster) == 0x3e99_999a,
        weapon_skill == Some(47u32) ==> weighs(37, weapon_skill, caster) == 0x3f00_0000,
        weapon_skill != Some(47u32) && weapon_skill != Some(37u32) ==> weighs(
            37,
            weapon_skill,
            caster,
        ) == 0x3dcc_cccd,
        forall|skill: u32|
            !(skill == 6 || skill == 7 || skill == 15 || skill == 16 || skill == 21 || skill == 24
                || 31 <= skill <= 34 || skill == 37 || skill == 41 || skill == 43 || 44 <= skill
                <= 50) && weapon_skill != Some(skill) ==> #[trigger] weighs(
                skill,
                weapon_skill,
                caster,
            ) == 0x3e19_999a,
{
}

/// Some formula of a skill names the attribute of this number, and no formula of
/// the skill stands before it.
pub open spec fn built_from(formulas: Seq<Formula>, skill: u32, number: int) -> bool {
    exists|k: int|
        0 <= k < formulas.len() && (#[trigger] formulas[k]).skill == skill && (formulas[k].attr1
            == number || formulas[k].attr2 == number) && forall|j: int|
            0 <= j < k ==> (#[trigger] formulas[j]).skill != skill
}

proof fn lemma_formula_at(formulas: Seq<Formula>, skill: u32, i: int)
    requires
        0 <= i <= formulas.len(),
        forall|j: int| 0 <= j < i ==> (#[trigger] formulas[j]).skill != skill,
    ensures
        match formula_at(formulas, skill, i) {
            Some(f) => exists|k: int|
                i <= k < formulas.len() && #[trigger] formulas[k] == f && f.skill == skill
                    && forall|j: int| 0 <= j < k ==> (#[trigger] formulas[j]).skill != skill,
            None => forall|j: int|
                0 <= j < formulas.len() ==> (#[trigger] formulas[j]).skill != skill,
        },
    decreases formulas.len() - i,
{
    if i < formulas.len() {
        if formulas[i].skill == skill {
            assert(formulas[i] == formula_at(formulas, skill, i)->0);
        } else {
            lemma_formula_at(formulas, skill, i + 1);
        }
    }
}

proof fn lemma_feeds(formulas: Seq<Formula>, skill: u32, i: int)
    ensures
        feeds(formulas, skill, i) == built_from(formulas, skill, i + 1),
{
    lemma_formula_at(formulas, skill, 0);
    match formula_at(formulas, skill, 0) {
        Some(f) => {
            let k = choose|k: int|
                0 <= k < formulas.len() && #[trigger] formulas[k] == f && f.skill == skill
                    && forall|j: int| 0 <= j < k ==> (#[trigger] formulas[j]).skill != skill;
            if built_from(formulas, skill, i + 1) {
                let l = choose|l: int|
                    0 <= l < formulas.len() && (#[trigger] formulas[l]).skill == skill && (
                    formulas[l].attr1 == i + 1 || formulas[l].attr2 == i + 1) && forall|j: int|
                        0 <= j < l ==> (#[trigger] formulas[j]).skill != skill;
                if l < k {
                    assert(formulas[l].skill != skill);
                }
                if k < l {
                    assert(formulas[k].skill != skill);
                }
            }
            if feeds(formulas, skill, i) {
                assert(formulas[k].skill == skill);
            }
        },
        None => {},
    }
}

/// What an attribute is worth: six tenths where what the character fights with
/// is built from it (for a caster, war or life magic), and else little,
/// Endurance apart.
pub proof fn law_what_the_fighting_is_built_from_matters(
    formulas: Seq<Formula>,
    weapon_skill: Option<u32>,
    i: int,
)
    ensures
        ({
            let fights = match weapon_skill {
                None => false,
                Some(s) => if s == 0 {
                    built_from(formulas, 34, i + 1) || built_from(formulas, 33, i + 1)
                } else {
                    built_from(formulas, s, i + 1)
                },
            };
            let w = attribute_weight(formulas, weapon_skill, i);
            &&& fights ==> w == 0x3f19_999a
            &&& !fights && i == 1 ==> w == 0x3ee6_6666
            &&& !fights && i != 1 ==> w == 0x3e19_999a
        }),
{
    match weapon_skill {
        Some(s) => {
            lemma_feeds(formulas, s, i);
            lemma_feeds(formulas, 34, i);
            lemma_feeds(formulas, 33, i);
        },
        None => {},
    }
    assert(fed(formulas, weapon_skill, i) ==> weapon_skill is Some);
}

/// Health matters half to everyone, mana half to a caster, and either more than
/// stamina.
pub proof fn law_health_matters_and_mana_to_a_caster(caster: bool)
    ensures
        vital_weight(caster, 0) == 0x3f00_0000,
        vital_weight(caster, 1) == 0x3e4c_cccd,
        vital_weight(true, 2) == 0x3f00_0000,
        vital_weight(false, 2) == 0x3e19_999a,
{
}

/// The maximums are raised by the three vitals, by Endurance and by Self, and by
/// nothing else.
pub proof fn law_what_raises_a_maximum(raise: Raise)
    ensures
        spec_raises_a_maximum(raise) <==> raise is Vital || raise == Raise::Attribute(1)
            || raise == Raise::Attribute(5),
{
}

/// A melee skill of some id that is trained or better, no better trained than
/// another.
pub open spec fn no_better_trained(a: SkillLine, b: SkillLine) -> bool {
    a.advancement < b.advancement || (a.advancement == b.advancement && a.line.ranks
        <= b.line.ranks)
}

/// A skill that a melee weapon is swung with, trained or better.
pub open spec fn swings_with(s: SkillLine) -> bool {
    (s.id == 41 || s.id == 44 || s.id == 45 || s.id == 46) && s.advancement >= 2
}

proof fn lemma_best_melee(skills: Seq<SkillLine>, n: nat)
    requires
        n <= skills.len(),
    ensures
        match best_melee(skills, n) {
            Some(i) => {
                &&& 0 <= i < n
                &&& swings_with(skills[i])
                &&& forall|k: int|
                    0 <= k < n && swings_with(#[trigger] skills[k]) ==> no_better_trained(
                        skills[k],
                        skills[i],
                    )
            },
            None => forall|k: int| 0 <= k < n ==> !swings_with(#[trigger] skills[k]),
        },
    decreases n,
{
    if n > 0 {
        lemma_best_melee(skills, (n - 1) as nat);
        assert(swings_with(skills[n - 1]) == (is_melee_skill(skills[n - 1].id) && skills[n
            - 1].advancement >= 2));
    }
}

/// What a character fights with: a caster with its wand, empty hands with
/// nothing, a weapon that says so with its own skill, a launcher that does not
/// with Missile Weapons, and any other with a trained melee skill than which none
/// is trained higher.
pub proof fn law_hands_say_what_is_fought_with(
    stance: Stance,
    weapon: Option<Option<u32>>,
    skills: Seq<SkillLine>,
    r: Option<u32>,
)
    requires
        r == spec_fighting_skill(stance, weapon, skills),
    ensures
        stance == Stance::Magic ==> r == Some(0u32),
        stance != Stance::Magic && weapon is None ==> r is None,
        forall|id: u32|
            stance != Stance::Magic && id != 0 && weapon == Some(Some(id)) ==> r == Some(id),
        stance == Stance::Missile && (weapon == Some(None::<u32>) || weapon == Some(Some(0u32)))
            ==> r == Some(47u32),
        (stance == Stance::Melee || stance == Stance::Peace) && (weapon == Some(None::<u32>)
            || weapon == Some(Some(0u32))) ==> match r {
            Some(id) => exists|i: int|
                0 <= i < skills.len() && (#[trigger] skills[i]).id == id && swings_with(skills[i])
                    && forall|k: int|
                    0 <= k < skills.len() && swings_with(#[trigger] skills[k])
                        ==> no_better_trained(skills[k], skills[i]),
            None => forall|k: int| 0 <= k < skills.len() ==> !swings_with(#[trigger] skills[k]),
        },
{
    lemma_best_melee(skills, skills.len());
    if let Some(i) = best_melee(skills, skills.len()) {
        assert(swings_with(skills[i]));
    }
}

} // verus!
