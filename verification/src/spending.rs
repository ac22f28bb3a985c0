//! Spending experience as housekeeping: what is on offer, what has been asked
//! for, and what the server has not answered.

use crate::advance::Ladder;
use crate::clock::{since, spec_since, Moment};
use crate::raises::{
    batch_raise, batched, best, for_sale, lemma_best, planned, standing, Batch, Climb, Offer, Raise,
};
use crate::single::Single;
use crate::spending_laws::{
    law_everything_priced_is_on_offer, offered_in_order, offers_the_stats, offers_the_trained,
    weighed_each,
};
use crate::text::{cat2, cat3, cat5, count, counted};
use vstd::prelude::*;
use vstd::string::*;

verus! {

/// One raise is sent at most this often.
pub const RAISE_EVERY: u64 = 700_000_000;

/// After a raise is sent, nothing more is spent until the server has answered,
/// or this long has passed.
pub const RAISE_SETTLE: u64 = 3_000_000_000;

/// When nothing was affordable, the pool is looked at again this often (or as
/// soon as it changes).
pub const XP_CHECK_EVERY: u64 = 20_000_000_000;

/// A rank the server would not sell is not asked for again for this long.
pub const SULK_FOR: u64 = 600_000_000_000;

/// The skills that the weights speak of.
pub const MELEE_DEFENSE: u32 = 6;

pub const MISSILE_DEFENSE: u32 = 7;

pub const MAGIC_DEFENSE: u32 = 15;

pub const MANA_CONVERSION: u32 = 16;

pub const HEALING: u32 = 21;

pub const RUN: u32 = 24;

pub const CREATURE_ENCHANTMENT: u32 = 31;

pub const ITEM_ENCHANTMENT: u32 = 32;

pub const LIFE_MAGIC: u32 = 33;

pub const WAR_MAGIC: u32 = 34;

pub const FLETCHING: u32 = 37;

pub const TWO_HANDED: u32 = 41;

pub const VOID_MAGIC: u32 = 43;

pub const HEAVY_WEAPONS: u32 = 44;

pub const LIGHT_WEAPONS: u32 = 45;

pub const FINESSE_WEAPONS: u32 = 46;

pub const MISSILE_WEAPONS: u32 = 47;

pub const RECKLESSNESS: u32 = 50;

/// How far a skill must be trained to be raised.
pub const TRAINED: u32 = 2;

/// Weights: 1.0, 0.9, 0.7, 0.6, 0.5, 0.45, 0.3, 0.2, 0.15 and 0.1.
pub const ONE: u32 = 0x3f80_0000;

pub const NINE_TENTHS: u32 = 0x3f66_6666;

pub const SEVEN_TENTHS: u32 = 0x3f33_3333;

pub const SIX_TENTHS: u32 = 0x3f19_999a;

pub const HALF: u32 = 0x3f00_0000;

pub const NINE_TWENTIETHS: u32 = 0x3ee6_6666;

pub const THREE_TENTHS: u32 = 0x3e99_999a;

pub const FIFTH: u32 = 0x3e4c_cccd;

pub const THREE_TWENTIETHS: u32 = 0x3e19_999a;

pub const TENTH: u32 = 0x3dcc_cccd;

/// How much a skill matters to a character fighting with `weapon_skill`.
pub open spec fn spec_skill_weight(skill: u32, weapon_skill: Option<u32>, caster: bool) -> u32 {
    if Some(skill) == weapon_skill {
        ONE
    } else if skill == WAR_MAGIC || skill == VOID_MAGIC {
        if caster {
            ONE
        } else {
            THREE_TWENTIETHS
        }
    } else if skill == LIFE_MAGIC {
        if caster {
            NINE_TENTHS
        } else {
            SIX_TENTHS
        }
    } else if skill == MELEE_DEFENSE || skill == MISSILE_DEFENSE {
        SEVEN_TENTHS
    } else if skill == MAGIC_DEFENSE {
        SIX_TENTHS
    } else if skill == HEALING || skill == CREATURE_ENCHANTMENT || skill == ITEM_ENCHANTMENT {
        HALF
    } else if skill == MANA_CONVERSION {
        if caster {
            SIX_TENTHS
        } else {
            FIFTH
        }
    } else if skill == FLETCHING {
        if weapon_skill == Some(MISSILE_WEAPONS) {
            HALF
        } else {
            TENTH
        }
    } else if skill == RUN {
        THREE_TENTHS
    } else if skill == TWO_HANDED || HEAVY_WEAPONS <= skill <= RECKLESSNESS {
        TENTH
    } else {
        THREE_TWENTIETHS
    }
}

/// How much a skill matters to a character fighting with `weapon_skill` (0 for
/// a caster's wand), given whether it casts.
pub fn skill_weight(skill: u32, weapon_skill: Option<u32>, caster: bool) -> (r: Single)
    ensures
        r == (Single { bits: spec_skill_weight(skill, weapon_skill, caster) }),
{
    let main = match weapon_skill {
        Some(s) => s == skill,
        None => false,
    };
    let bow = match weapon_skill {
        Some(s) => s == MISSILE_WEAPONS,
        None => false,
    };
    let bits: u32 = if main {
        ONE
    } else if skill == WAR_MAGIC || skill == VOID_MAGIC {
        if caster {
            ONE
        } else {
            THREE_TWENTIETHS
        }
    } else if skill == LIFE_MAGIC {
        if caster {
            NINE_TENTHS
        } else {
            SIX_TENTHS
        }
    } else if skill == MELEE_DEFENSE || skill == MISSILE_DEFENSE {
        SEVEN_TENTHS
    } else if skill == MAGIC_DEFENSE {
        SIX_TENTHS
    } else if skill == HEALING || skill == CREATURE_ENCHANTMENT || skill == ITEM_ENCHANTMENT {
        HALF
    } else if skill == MANA_CONVERSION {
        if caster {
            SIX_TENTHS
        } else {
            FIFTH
        }
    } else if skill == FLETCHING {
        if bow {
            HALF
        } else {
            TENTH
        }
    } else if skill == RUN {
        THREE_TENTHS
    } else if skill == TWO_HANDED || (HEAVY_WEAPONS <= skill && skill <= RECKLESSNESS) {
        // Another weapon skill: not the one in hand.
        TENTH
    } else {
        THREE_TWENTIETHS
    };
    Single { bits }
}

/// Endurance and Self, among the attributes from nought.
pub const ENDURANCE: usize = 1;

pub const SELF: usize = 5;

pub open spec fn spec_raises_a_maximum(raise: Raise) -> bool {
    match raise {
        Raise::Vital(_) => true,
        Raise::Attribute(i) => i == ENDURANCE || i == SELF,
        Raise::Skill(_) => false,
    }
}

/// Whether a rank raises the maximum of a vital: Health, Stamina or Mana
/// itself, or Endurance or Self, which the maximums are built from.
///
/// Such a rank leaves what is left of the vital where it was, so the fraction
/// left drops with every one, and that fraction is what the heal rules read.
pub fn raises_a_maximum(raise: Raise) -> (r: bool)
    ensures
        r == spec_raises_a_maximum(raise),
{
    match raise {
        Raise::Vital(_) => true,
        Raise::Attribute(i) => i == ENDURANCE || i == SELF,
        Raise::Skill(_) => false,
    }
}

/// A skill on the sheet: its id, how far it is trained, its ranks, the
/// experience spent on it, what its next rank costs (none where there is none
/// to be had), and what each of its ranks has cost by then in all (none where
/// the table has no such column).
#[derive(Clone, Debug)]
pub struct SkillLine {
    pub id: u32,
    pub advancement: u32,
    pub line: StatLine,
}

/// A stat's ranks, the experience spent on it, what its next rank costs, and
/// what each of its ranks has cost by then in all.
#[derive(Clone, Debug)]
pub struct StatLine {
    pub ranks: u32,
    pub xp: u32,
    pub cost: Option<u32>,
    pub column: Option<Vec<u32>>,
}

/// What a skill is built from: up to two attributes, counted from one.
#[derive(Clone, Copy, Debug, PartialEq, Eq, Structural)]
pub struct Formula {
    pub skill: u32,
    pub attr1: u32,
    pub attr2: u32,
}

/// The character's sheet, as the server last said.
#[derive(Clone, Debug)]
pub struct Sheet {
    pub available_xp: i64,
    pub level: i32,
    pub skills: Vec<SkillLine>,
    pub attributes: Vec<StatLine>,
    pub vitals: Vec<StatLine>,
    /// Whether the table of what ranks cost could be read.
    pub table_known: bool,
}

/// The first line for skill `id`, from `i` on.
pub open spec fn skill_at(skills: Seq<SkillLine>, id: u32, i: int) -> Option<int>
    decreases skills.len() - i,
{
    if i >= skills.len() {
        None
    } else if skills[i].id == id {
        Some(i)
    } else {
        skill_at(skills, id, i + 1)
    }
}

/// The line of a stat on the sheet.
pub open spec fn line_of(sheet: Sheet, raise: Raise) -> Option<StatLine> {
    match raise {
        Raise::Skill(id) => match skill_at(sheet.skills@, id, 0) {
            Some(i) => Some(sheet.skills@[i].line),
            None => None,
        },
        Raise::Attribute(i) => if i < sheet.attributes@.len() {
            Some(sheet.attributes@[i as int])
        } else {
            None
        },
        Raise::Vital(i) => if i < sheet.vitals@.len() {
            Some(sheet.vitals@[i as int])
        } else {
            None
        },
    }
}

/// A stat's ranks and the experience spent on it.
pub open spec fn stands(sheet: Sheet, raise: Raise) -> Option<(u32, u32)> {
    match line_of(sheet, raise) {
        Some(l) => Some((l.ranks, l.xp)),
        None => None,
    }
}

fn find_line(sheet: &Sheet, raise: Raise) -> (r: Option<&StatLine>)
    ensures
        match r {
            Some(l) => line_of(*sheet, raise) == Some(*l),
            None => line_of(*sheet, raise) is None,
        },
{
    match raise {
        Raise::Skill(id) => {
            let mut i: usize = 0;
            while i < sheet.skills.len()
                invariant
                    i <= sheet.skills.len(),
                    raise == Raise::Skill(id),
                    skill_at(sheet.skills@, id, 0) == skill_at(sheet.skills@, id, i as int),
                decreases sheet.skills.len() - i,
            {
                if sheet.skills[i].id == id {
                    return Some(&sheet.skills[i].line);
                }
                i = i + 1;
            }
            None
        },
        Raise::Attribute(i) => {
            if i < sheet.attributes.len() {
                Some(&sheet.attributes[i])
            } else {
                None
            }
        },
        Raise::Vital(i) => {
            if i < sheet.vitals.len() {
                Some(&sheet.vitals[i])
            } else {
                None
            }
        },
    }
}

impl Raise {
    /// The stat's ranks and the experience spent on it, as the server last
    /// said. None for a stat not on the sheet.
    pub fn standing(self, sheet: &Sheet) -> (r: Option<(u32, u32)>)
        ensures
            r == stands(*sheet, self),
    {
        match find_line(sheet, self) {
            Some(l) => Some((l.ranks, l.xp)),
            None => None,
        }
    }

    pub open spec fn spec_name(
        self,
        skill: Seq<char>,
        attributes: Seq<&str>,
        vitals: Seq<&str>,
    ) -> Seq<char> {
        match self {
            Raise::Skill(_) => skill,
            Raise::Attribute(i) => if i < attributes.len() {
                attributes[i as int]@
            } else {
                "an attribute"@
            },
            Raise::Vital(i) => if i < vitals.len() {
                vitals[i as int]@
            } else {
                "a vital"@
            },
        }
    }

    /// What the stat is called, given what the skill, the attributes and the
    /// vitals are called.
    pub fn name<'a>(self, skill: &'a str, attributes: &[&'a str], vitals: &[&'a str]) -> (r: &'a str)
        ensures
            r@ == self.spec_name(skill@, attributes@, vitals@),
    {
        match self {
            Raise::Skill(_) => skill,
            Raise::Attribute(i) => {
                if i < attributes.len() {
                    attributes[i]
                } else {
                    "an attribute"
                }
            },
            Raise::Vital(i) => {
                if i < vitals.len() {
                    vitals[i]
                } else {
                    "a vital"
                }
            },
        }
    }
}

/// What the character holds itself ready to fight with.
#[derive(Clone, Copy, Debug, PartialEq, Eq, Structural)]
pub enum Stance {
    Peace,
    Melee,
    Missile,
    Magic,
}

pub open spec fn is_melee_skill(id: u32) -> bool {
    id == TWO_HANDED || id == HEAVY_WEAPONS || id == LIGHT_WEAPONS || id == FINESSE_WEAPONS
}

/// Which of the first `n` skills is the melee skill trained highest, the last
/// of several as high.
pub open spec fn best_melee(skills: Seq<SkillLine>, n: nat) -> Option<int>
    decreases n,
{
    if n == 0 {
        None
    } else {
        let i = n - 1;
        let best = best_melee(skills, i as nat);
        if !is_melee_skill(skills[i].id) || skills[i].advancement < TRAINED {
            best
        } else if best is Some && trained_higher(skills[best->0], skills[i]) {
            best
        } else {
            Some(i)
        }
    }
}

pub open spec fn trained_higher(a: SkillLine, b: SkillLine) -> bool {
    a.advancement > b.advancement || (a.advancement == b.advancement && a.line.ranks
        > b.line.ranks)
}

/// The weapon skill the character fights with.
pub open spec fn spec_fighting_skill(
    stance: Stance,
    weapon: Option<Option<u32>>,
    skills: Seq<SkillLine>,
) -> Option<u32> {
    if stance == Stance::Magic {
        Some(0)
    } else {
        match weapon {
            None => None,
            Some(said) => if said is Some && said->0 != 0 {
                said
            } else if stance == Stance::Missile {
                Some(MISSILE_WEAPONS)
            } else {
                match best_melee(skills, skills.len()) {
                    Some(i) => Some(skills[i].id),
                    None => None,
                }
            },
        }
    }
}

/// The weapon skill the character fights with, from its hands: `Some(0)` for a
/// caster. `weapon` is the skill its weapon's appraisal says, within what is
/// in hand: an unappraised weapon says nothing about its skill, so the stance
/// stands in: a bow is Missile Weapons, and a melee weapon whichever melee skill
/// is trained highest.
pub fn fighting_skill(stance: Stance, weapon: Option<Option<u32>>, skills: &[SkillLine]) -> (r: Option<
    u32,
>)
    ensures
        r == spec_fighting_skill(stance, weapon, skills@),
{
    if stance == Stance::Magic {
        return Some(0);
    }
    match weapon {
        None => {
            return None;
        },
        Some(said) => {
            if let Some(id) = said {
                if id != 0 {
                    return Some(id);
                }
            }
        },
    }
    if stance == Stance::Missile {
        return Some(MISSILE_WEAPONS);
    }
    let mut best: Option<usize> = None;
    let mut i: usize = 0;
    while i < skills.len()
        invariant
            i <= skills.len(),
            match best {
                Some(k) => best_melee(skills@, i as nat) == Some(k as int) && k < i,
                None => best_melee(skills@, i as nat) is None,
            },
        decreases skills.len() - i,
    {
        let s = &skills[i];
        let melee = s.id == TWO_HANDED || s.id == HEAVY_WEAPONS || s.id == LIGHT_WEAPONS || s.id
            == FINESSE_WEAPONS;
        if melee && s.advancement >= TRAINED {
            match best {
                Some(k) => {
                    let b = &skills[k];
                    let higher = b.advancement > s.advancement || (b.advancement == s.advancement
                        && b.line.ranks > s.line.ranks);
                    if !higher {
                        best = Some(i);
                    }
                },
                None => {
                    best = Some(i);
                },
            }
        }
        i = i + 1;
    }
    match best {
        Some(k) => Some(skills[k].id),
        None => None,
    }
}

/// The first formula for a skill, from `i` on.
pub open spec fn formula_at(formulas: Seq<Formula>, skill: u32, i: int) -> Option<Formula>
    decreases formulas.len() - i,
{
    if i >= formulas.len() {
        None
    } else if formulas[i].skill == skill {
        Some(formulas[i])
    } else {
        formula_at(formulas, skill, i + 1)
    }
}

/// A skill is built from the attribute of index `i`.
pub open spec fn feeds(formulas: Seq<Formula>, skill: u32, i: int) -> bool {
    let f = formula_at(formulas, skill, 0);
    f is Some && (f->0.attr1 == i + 1 || f->0.attr2 == i + 1)
}

/// What the character fights with is built from the attribute of index `i`.
pub open spec fn fed(formulas: Seq<Formula>, weapon_skill: Option<u32>, i: int) -> bool {
    match weapon_skill {
        Some(s) => if s == 0 {
            feeds(formulas, WAR_MAGIC, i) || feeds(formulas, LIFE_MAGIC, i)
        } else {
            feeds(formulas, s, i)
        },
        None => false,
    }
}

pub open spec fn attribute_weight(formulas: Seq<Formula>, weapon_skill: Option<u32>, i: int) -> u32 {
    if fed(formulas, weapon_skill, i) {
        SIX_TENTHS
    } else if i == ENDURANCE {
        NINE_TWENTIETHS
    } else {
        THREE_TWENTIETHS
    }
}

pub open spec fn vital_weight(caster: bool, i: int) -> u32 {
    if i == 0 {
        HALF
    } else if i == 1 {
        FIFTH
    } else if caster {
        HALF
    } else {
        THREE_TWENTIETHS
    }
}

/// What the first `n` skills offer.
pub open spec fn skill_offers(skills: Seq<SkillLine>, weapon_skill: Option<u32>, n: nat) -> Seq<Offer>
    decreases n,
{
    if n == 0 {
        seq![]
    } else {
        let rest = skill_offers(skills, weapon_skill, (n - 1) as nat);
        let s = skills[n - 1];
        if s.advancement >= TRAINED && s.line.cost is Some {
            rest.push(
                Offer {
                    raise: Raise::Skill(s.id),
                    cost: s.line.cost->0,
                    weight: Single {
                        bits: spec_skill_weight(s.id, weapon_skill, weapon_skill == Some(0u32)),
                    },
                },
            )
        } else {
            rest
        }
    }
}

/// What the first `n` attributes offer.
pub open spec fn attribute_offers(
    lines: Seq<StatLine>,
    formulas: Seq<Formula>,
    weapon_skill: Option<u32>,
    n: nat,
) -> Seq<Offer>
    decreases n,
{
    if n == 0 {
        seq![]
    } else {
        let rest = attribute_offers(lines, formulas, weapon_skill, (n - 1) as nat);
        let i = (n - 1) as usize;
        if n <= lines.len() && lines[n - 1].cost is Some {
            rest.push(
                Offer {
                    raise: Raise::Attribute(i),
                    cost: lines[n - 1].cost->0,
                    weight: Single { bits: attribute_weight(formulas, weapon_skill, i as int) },
                },
            )
        } else {
            rest
        }
    }
}

/// What the first `n` vitals offer.
pub open spec fn vital_offers(lines: Seq<StatLine>, caster: bool, n: nat) -> Seq<Offer>
    decreases n,
{
    if n == 0 {
        seq![]
    } else {
        let rest = vital_offers(lines, caster, (n - 1) as nat);
        let i = (n - 1) as usize;
        if n <= lines.len() && lines[n - 1].cost is Some {
            rest.push(
                Offer {
                    raise: Raise::Vital(i),
                    cost: lines[n - 1].cost->0,
                    weight: Single { bits: vital_weight(caster, i as int) },
                },
            )
        } else {
            rest
        }
    }
}

/// How many attributes and vitals there are.
pub const ATTRIBUTES: usize = 6;

pub const VITALS: usize = 3;

/// Everything experience could go on.
pub open spec fn spec_raise_offers(
    sheet: Sheet,
    formulas: Seq<Formula>,
    weapon_skill: Option<u32>,
) -> Seq<Offer> {
    skill_offers(sheet.skills@, weapon_skill, sheet.skills@.len()) + attribute_offers(
        sheet.attributes@,
        formulas,
        weapon_skill,
        ATTRIBUTES as nat,
    ) + vital_offers(sheet.vitals@, weapon_skill == Some(0u32), VITALS as nat)
}

fn does_feed(formulas: &[Formula], skill: u32, i: usize) -> (r: bool)
    requires
        i < ATTRIBUTES,
    ensures
        r == feeds(formulas@, skill, i as int),
{
    let mut k: usize = 0;
    while k < formulas.len()
        invariant
            i < ATTRIBUTES,
            k <= formulas.len(),
            formula_at(formulas@, skill, 0) == formula_at(formulas@, skill, k as int),
        decreases formulas.len() - k,
    {
        if formulas[k].skill == skill {
            let n: u32 = i as u32 + 1;
            return formulas[k].attr1 == n || formulas[k].attr2 == n;
        }
        k = k + 1;
    }
    false
}

fn is_fed(formulas: &[Formula], weapon_skill: Option<u32>, i: usize) -> (r: bool)
    requires
        i < ATTRIBUTES,
    ensures
        r == fed(formulas@, weapon_skill, i as int),
{
    match weapon_skill {
        Some(s) => {
            if s == 0 {
                does_feed(formulas, WAR_MAGIC, i) || does_feed(formulas, LIFE_MAGIC, i)
            } else {
                does_feed(formulas, s, i)
            }
        },
        None => false,
    }
}

/// Everything experience could go on right now, priced and weighed. The
/// attributes the fighting skill is built from matter as much as a defence; the
/// others little, Endurance apart.
pub fn raise_offers(sheet: &Sheet, formulas: &[Formula], weapon_skill: Option<u32>) -> (r: Vec<Offer>)
    ensures
        r@ == spec_raise_offers(*sheet, formulas@, weapon_skill),
        offers_the_trained(*sheet, r@),
        offers_the_stats(*sheet, r@),
        offered_in_order(r@),
        weighed_each(formulas@, weapon_skill, r@),
{
    let caster = match weapon_skill {
        Some(s) => s == 0,
        None => false,
    };
    let mut r: Vec<Offer> = Vec::new();
    let mut i: usize = 0;
    while i < sheet.skills.len()
        invariant
            i <= sheet.skills.len(),
            caster == (weapon_skill == Some(0u32)),
            r@ == skill_offers(sheet.skills@, weapon_skill, i as nat),
        decreases sheet.skills.len() - i,
    {
        let s = &sheet.skills[i];
        if s.advancement >= TRAINED {
            if let Some(cost) = s.line.cost {
                r.push(
                    Offer {
                        raise: Raise::Skill(s.id),
                        cost,
                        weight: skill_weight(s.id, weapon_skill, caster),
                    },
                );
            }
        }
        i = i + 1;
    }
    let ghost skills = r@;
    i = 0;
    assert(skills + attribute_offers(sheet.attributes@, formulas@, weapon_skill, 0) =~= skills);
    while i < ATTRIBUTES
        invariant
            i <= ATTRIBUTES,
            r@ == skills + attribute_offers(sheet.attributes@, formulas@, weapon_skill, i as nat),
        decreases ATTRIBUTES - i,
    {
        if i < sheet.attributes.len() {
            if let Some(cost) = sheet.attributes[i].cost {
                let bits: u32 = if is_fed(formulas, weapon_skill, i) {
                    SIX_TENTHS
                } else if i == ENDURANCE {
                    NINE_TWENTIETHS
                } else {
                    THREE_TWENTIETHS
                };
                let ghost so_far = r@;
                r.push(Offer { raise: Raise::Attribute(i), cost, weight: Single { bits } });
                assert(r@ =~= skills + attribute_offers(
                    sheet.attributes@,
                    formulas@,
                    weapon_skill,
                    (i + 1) as nat,
                ));
            }
        }
        i = i + 1;
    }
    let ghost both = r@;
    i = 0;
    assert(both + vital_offers(sheet.vitals@, caster, 0) =~= both);
    while i < VITALS
        invariant
            i <= VITALS,
            r@ == both + vital_offers(sheet.vitals@, caster, i as nat),
        decreases VITALS - i,
    {
        if i < sheet.vitals.len() {
            if let Some(cost) = sheet.vitals[i].cost {
                let bits: u32 = if i == 0 {
                    HALF
                } else if i == 1 {
                    FIFTH
                } else if caster {
                    HALF
                } else {
                    THREE_TWENTIETHS
                };
                r.push(Offer { raise: Raise::Vital(i), cost, weight: Single { bits } });
                assert(r@ =~= both + vital_offers(sheet.vitals@, caster, (i + 1) as nat));
            }
        }
        i = i + 1;
    }
    proof {
        law_everything_priced_is_on_offer(*sheet, formulas@, weapon_skill, r@);
    }
    r
}

/// A raise sent to the server and not yet answered.
#[derive(Clone, Copy, Debug, PartialEq, Eq)]
pub struct Pending {
    pub raise: Raise,
    pub batch: Batch,
    /// Where the stat stood when it was sent. The answer moves it; the pool
    /// alone says nothing, for a kill moves that too.
    pub was: Option<(u32, u32)>,
    /// When the message went out, which is not when it was queued: stamped by
    /// the first look at it after that.
    pub since: Option<Moment>,
}

/// A pool at which nothing was worth buying, whether the character was in a
/// fight then, and when that was seen.
#[derive(Clone, Copy, Debug, PartialEq, Eq, Structural)]
pub struct Nothing {
    pub at: i64,
    pub fighting: bool,
    pub when: Moment,
}

/// What spending experience remembers.
#[derive(Clone, Debug)]
pub struct Spending {
    pub last_raise: Option<Moment>,
    /// The raise last sent, until the server answers it or it is given up on.
    pub pending: Option<Pending>,
    pub nothing_at: Option<Nothing>,
    /// Raises the server did not answer in time, and when they were given up
    /// on: refused, or only late.
    pub sulking: Vec<(Pending, Moment)>,
}

/// What spending experience remembers, as a value.
#[verifier::ext_equal]
pub struct Memory {
    pub last_raise: Option<Moment>,
    pub pending: Option<Pending>,
    pub nothing_at: Option<Nothing>,
    pub sulking: Seq<(Pending, Moment)>,
}

impl View for Spending {
    type V = Memory;

    open spec fn view(&self) -> Memory {
        Memory {
            last_raise: self.last_raise,
            pending: self.pending,
            nothing_at: self.nothing_at,
            sulking: self.sulking@,
        }
    }
}

impl Default for Spending {
    fn default() -> (r: Spending)
        ensures
            r@ == (Memory { last_raise: None, pending: None, nothing_at: None, sulking: seq![] }),
    {
        Spending { last_raise: None, pending: None, nothing_at: None, sulking: Vec::new() }
    }
}

/// The server has answered a raise: its stat has moved.
pub open spec fn landed(p: Pending, sheet: Sheet) -> bool {
    stands(sheet, p.raise) != p.was
}

/// What becomes of the raise last sent, and whether it is still waited for. It
/// is answered when its stat moves; its time starts with the first look at it,
/// and one not answered in time is left alone for a while.
pub open spec fn heard(m: Memory, sheet: Sheet, now: Moment) -> (Memory, bool) {
    match m.pending {
        None => (m, false),
        Some(p) => if landed(p, sheet) {
            (Memory { pending: None, ..m }, false)
        } else {
            match p.since {
                None => (Memory { pending: Some(Pending { since: Some(now), ..p }), ..m }, true),
                Some(t) => if spec_since(now, t) < RAISE_SETTLE {
                    (m, true)
                } else {
                    (Memory { pending: None, sulking: m.sulking.push((p, now)), ..m }, false)
                },
            }
        },
    }
}

/// A raise left alone is left alone still.
pub open spec fn still_sulks(s: (Pending, Moment), sheet: Sheet, now: Moment) -> bool {
    !landed(s.0, sheet) && spec_since(now, s.1) < SULK_FOR
}

/// Those of the first `n` raises that are left alone still.
pub open spec fn sulks_left(s: Seq<(Pending, Moment)>, sheet: Sheet, now: Moment, n: nat) -> Seq<
    (Pending, Moment),
>
    decreases n,
{
    if n == 0 {
        seq![]
    } else {
        let rest = sulks_left(s, sheet, now, (n - 1) as nat);
        if still_sulks(s[n - 1], sheet, now) {
            rest.push(s[n - 1])
        } else {
            rest
        }
    }
}

/// An answer that comes in late ends the wait; the rest wear off. Either can
/// leave something to buy that was not there.
pub open spec fn calmed(m: Memory, sheet: Sheet, now: Moment) -> Memory {
    let left = sulks_left(m.sulking, sheet, now, m.sulking.len());
    Memory {
        sulking: left,
        nothing_at: if left.len() < m.sulking.len() {
            None
        } else {
            m.nothing_at
        },
        ..m
    }
}

/// It is too soon to look again: a raise has just gone out, or the pool that
/// bought nothing has not changed.
pub open spec fn too_soon(m: Memory, xp: i64, fighting: bool, now: Moment) -> bool {
    ||| m.last_raise is Some && spec_since(now, m.last_raise->0) < RAISE_EVERY
    ||| m.nothing_at is Some && m.nothing_at->0.at == xp && m.nothing_at->0.fighting == fighting
        && spec_since(now, m.nothing_at->0.when) < XP_CHECK_EVERY
}

pub open spec fn is_sulking(s: Seq<(Pending, Moment)>, raise: Raise) -> bool {
    exists|i: int| 0 <= i < s.len() && (#[trigger] s[i]).0.raise == raise
}

/// A stat on offer, in the running for the pool.
pub open spec fn climb_of(
    o: Offer,
    l: StatLine,
    fighting: bool,
    sulking: Seq<(Pending, Moment)>,
) -> Climb<'static> {
    Climb {
        raise: o.raise,
        ladder: Ladder { table: &l.column->0, ranks: l.ranks, spent: l.xp },
        weight: o.weight,
        held: (fighting && spec_raises_a_maximum(o.raise)) || is_sulking(sulking, o.raise),
    }
}

/// The first `n` stats on offer, those of them with a ladder. A rank that
/// raises a maximum is held for the length of a fight, and so is a stat whose
/// raise went unanswered: held, not left out.
pub open spec fn field_of(
    sheet: Sheet,
    offers: Seq<Offer>,
    fighting: bool,
    sulking: Seq<(Pending, Moment)>,
    n: nat,
) -> Seq<Climb<'static>>
    decreases n,
{
    if n == 0 {
        seq![]
    } else {
        let rest = field_of(sheet, offers, fighting, sulking, (n - 1) as nat);
        let o = offers[n - 1];
        match line_of(sheet, o.raise) {
            Some(l) => if l.column is Some {
                rest.push(climb_of(o, l, fighting, sulking))
            } else {
                rest
            },
            None => rest,
        }
    }
}

/// A raise to be sent: of what, how much, and where the stat stands.
#[derive(Clone, Copy, Debug, PartialEq, Eq)]
pub struct Purchase {
    pub raise: Raise,
    pub batch: Batch,
    pub was: Option<(u32, u32)>,
}

/// What a look at the pool comes to: nothing to do, or a raise to send. `asked`
/// says that the look got as far as pricing, for which the weapon in hand is
/// put up for appraisal.
#[derive(Clone, Copy, Debug, PartialEq, Eq)]
pub struct Spend {
    pub asked: bool,
    pub buy: Option<Purchase>,
}

/// What a look at the pool comes to, and what is remembered after it.
pub open spec fn spent(
    m: Memory,
    sheet: Sheet,
    formulas: Seq<Formula>,
    weapon_skill: Option<u32>,
    fighting: bool,
    now: Moment,
) -> (Memory, Spend) {
    let xp = sheet.available_xp;
    let wait = Spend { asked: false, buy: None };
    if xp <= 0 || sheet.level <= 0 {
        (m, wait)
    } else {
        let (after, waits) = heard(m, sheet, now);
        let calm = calmed(after, sheet, now);
        if waits {
            (after, wait)
        } else if too_soon(calm, xp, fighting, now) {
            (calm, wait)
        } else {
            let offers = spec_raise_offers(sheet, formulas, weapon_skill);
            let field = field_of(sheet, offers, fighting, calm.sulking, offers.len());
            let none = Memory {
                nothing_at: Some(Nothing { at: xp, fighting, when: now }),
                ..calm
            };
            if !sheet.table_known {
                (none, Spend { asked: true, buy: None })
            } else {
                match batched(field, xp as int) {
                    None => (none, Spend { asked: true, buy: None }),
                    Some((raise, batch)) => (
                        calm,
                        Spend {
                            asked: true,
                            buy: Some(Purchase { raise, batch, was: stands(sheet, raise) }),
                        },
                    ),
                }
            }
        }
    }
}

fn same_standing(a: Option<(u32, u32)>, b: Option<(u32, u32)>) -> (r: bool)
    ensures
        r == (a == b),
{
    match (a, b) {
        (Some((x, y)), Some((z, w))) => x == z && y == w,
        (None, None) => true,
        _ => false,
    }
}

fn same_raise(a: Raise, b: Raise) -> (r: bool)
    ensures
        r == (a == b),
{
    match (a, b) {
        (Raise::Skill(x), Raise::Skill(y)) => x == y,
        (Raise::Attribute(x), Raise::Attribute(y)) => x == y,
        (Raise::Vital(x), Raise::Vital(y)) => x == y,
        _ => false,
    }
}

fn has_sulked(s: &Vec<(Pending, Moment)>, raise: Raise) -> (r: bool)
    ensures
        r == is_sulking(s@, raise),
{
    let mut i: usize = 0;
    while i < s.len()
        invariant
            i <= s.len(),
            forall|k: int| 0 <= k < i ==> (#[trigger] s@[k]).0.raise != raise,
        decreases s.len() - i,
    {
        if same_raise(s[i].0.raise, raise) {
            return true;
        }
        i = i + 1;
    }
    false
}

fn make_field<'a>(
    sheet: &'a Sheet,
    offers: &Vec<Offer>,
    fighting: bool,
    sulking: &Vec<(Pending, Moment)>,
) -> (r: Vec<Climb<'a>>)
    ensures
        r@ == field_of(*sheet, offers@, fighting, sulking@, offers@.len()),
{
    let mut r: Vec<Climb<'a>> = Vec::new();
    let mut i: usize = 0;
    while i < offers.len()
        invariant
            i <= offers.len(),
            r@ == field_of(*sheet, offers@, fighting, sulking@, i as nat),
        decreases offers.len() - i,
    {
        let o = offers[i];
        if let Some(l) = find_line(sheet, o.raise) {
            if let Some(table) = &l.column {
                let held = (fighting && raises_a_maximum(o.raise)) || has_sulked(sulking, o.raise);
                r.push(
                    Climb {
                        raise: o.raise,
                        ladder: Ladder { table, ranks: l.ranks, spent: l.xp },
                        weight: o.weight,
                        held,
                    },
                );
            }
        }
        i = i + 1;
    }
    r
}

impl Spending {
    /// Hear what became of the raise last sent; whether it is still waited for.
    fn hear(&mut self, sheet: &Sheet, now: Moment) -> (r: bool)
        ensures
            (final(self)@, r) == heard(old(self)@, *sheet, now),
    {
        match self.pending {
            None => false,
            Some(p) => {
                if !same_standing(p.raise.standing(sheet), p.was) {
                    self.pending = None;
                    false
                } else {
                    match p.since {
                        None => {
                            self.pending = Some(
                                Pending {
                                    raise: p.raise,
                                    batch: p.batch,
                                    was: p.was,
                                    since: Some(now),
                                },
                            );
                            true
                        },
                        Some(t) => {
                            if since(now, t) < RAISE_SETTLE {
                                true
                            } else {
                                self.sulking.push((p, now));
                                self.pending = None;
                                false
                            }
                        },
                    }
                }
            },
        }
    }

    /// Let the raises left alone wear off.
    fn calm(&mut self, sheet: &Sheet, now: Moment)
        ensures
            final(self)@ == calmed(old(self)@, *sheet, now),
    {
        let mut left: Vec<(Pending, Moment)> = Vec::new();
        let mut i: usize = 0;
        while i < self.sulking.len()
            invariant
                i <= self.sulking.len(),
                self@ == old(self)@,
                left@ == sulks_left(self.sulking@, *sheet, now, i as nat),
            decreases self.sulking.len() - i,
        {
            let (p, t) = self.sulking[i];
            if same_standing(p.raise.standing(sheet), p.was) && since(now, t) < SULK_FOR {
                left.push((p, t));
            }
            i = i + 1;
        }
        if left.len() < self.sulking.len() {
            self.nothing_at = None;
        }
        self.sulking = left;
    }

    fn is_too_soon(&self, xp: i64, fighting: bool, now: Moment) -> (r: bool)
        ensures
            r == too_soon(self@, xp, fighting, now),
    {
        if let Some(t) = self.last_raise {
            if since(now, t) < RAISE_EVERY {
                return true;
            }
        }
        if let Some(n) = self.nothing_at {
            if n.at == xp && n.fighting == fighting && since(now, n.when) < XP_CHECK_EVERY {
                return true;
            }
        }
        false
    }

    /// Look at the pool, and say what to buy: the rank worth buying, or with a
    /// large pool as many of its ranks as buying a rank at a time would give
    /// it, in one message.
    ///
    /// One raise at a time: no more often than [`RAISE_EVERY`], nothing more
    /// until the server has answered or [`RAISE_SETTLE`] has passed, and a raise
    /// it would not sell left alone for [`SULK_FOR`].
    pub fn grow_spend_xp(
        &mut self,
        sheet: &Sheet,
        formulas: &[Formula],
        weapon_skill: Option<u32>,
        fighting: bool,
        now: Moment,
    ) -> (r: Spend)
        ensures
            (final(self)@, r) == spent(
                old(self)@,
                *sheet,
                formulas@,
                weapon_skill,
                fighting,
                now,
            ),
    {
        let xp: i64 = sheet.available_xp;
        let wait = Spend { asked: false, buy: None };
        if xp <= 0 || sheet.level <= 0 {
            return wait;
        }
        if self.hear(sheet, now) {
            return wait;
        }
        self.calm(sheet, now);
        if self.is_too_soon(xp, fighting, now) {
            return wait;
        }
        if !sheet.table_known {
            self.nothing_at = Some(Nothing { at: xp, fighting, when: now });
            return Spend { asked: true, buy: None };
        }
        let offers = raise_offers(sheet, formulas, weapon_skill);
        let field = make_field(sheet, &offers, fighting, &self.sulking);
        match batch_raise(field.as_slice(), xp) {
            None => {
                self.nothing_at = Some(Nothing { at: xp, fighting, when: now });
                Spend { asked: true, buy: None }
            },
            Some((raise, batch)) => Spend {
                asked: true,
                buy: Some(Purchase { raise, batch, was: raise.standing(sheet) }),
            },
        }
    }

    /// Spend experience, where the player lets it be spent. It is housekeeping,
    /// and waits for nothing: a raise touches neither an attack nor a cast under
    /// way. `None` where it is not to be spent.
    pub fn autoplay_spend_xp(
        &mut self,
        auto_xp: bool,
        sheet: &Sheet,
        formulas: &[Formula],
        weapon_skill: Option<u32>,
        fighting: bool,
        now: Moment,
    ) -> (r: Option<Spend>)
        ensures
            match r {
                Some(spend) => auto_xp && (final(self)@, spend) == spent(
                    old(self)@,
                    *sheet,
                    formulas@,
                    weapon_skill,
                    fighting,
                    now,
                ),
                None => !auto_xp && final(self)@ == old(self)@,
            },
    {
        if auto_xp {
            Some(self.grow_spend_xp(sheet, formulas, weapon_skill, fighting, now))
        } else {
            None
        }
    }

    /// Remember that a purchase was sent, or that it could not be.
    pub fn raise_sent(&mut self, p: Purchase, sent: bool, xp: i64, fighting: bool, now: Moment)
        ensures
            final(self)@ == if sent {
                (Memory {
                    last_raise: Some(now),
                    pending: Some(
                        Pending { raise: p.raise, batch: p.batch, was: p.was, since: None },
                    ),
                    nothing_at: None,
                    sulking: old(self)@.sulking,
                })
            } else {
                (Memory {
                    nothing_at: Some(Nothing { at: xp, fighting, when: now }),
                    ..old(self)@
                })
            },
            sent <==> final(self)@.nothing_at is None,
            sent ==> final(self)@.last_raise == Some(now) && final(self)@.pending is Some
                && final(self)@.pending->0.since is None && final(self)@.pending->0.was == p.was
                && final(self)@.pending->0.raise == p.raise,
            !sent ==> final(self)@.pending == old(self)@.pending && final(self)@.last_raise == old(
                self,
            )@.last_raise,
    {
        if sent {
            self.last_raise = Some(now);
            self.pending = Some(
                Pending { raise: p.raise, batch: p.batch, was: p.was, since: None },
            );
            self.nothing_at = None;
        } else {
            self.nothing_at = Some(Nothing { at: xp, fighting, when: now });
        }
    }
}

/// What is said of a raise sent.
pub open spec fn raising(name: Seq<char>, ranks: u32, xp: Seq<char>) -> Seq<char> {
    let what = if ranks == 1 {
        name
    } else {
        name + " "@ + counted(ranks as nat) + " ranks"@
    };
    "raising "@ + what + " ("@ + xp + " xp to spend)"@
}

/// What is said of a raise sent, with `xp` to spend.
pub fn say_raising(name: &str, ranks: u32, xp: u64) -> (r: String)
    ensures
        r@ == raising(name@, ranks, counted(xp as nat)),
{
    let what = if ranks == 1 {
        String::from_str(name)
    } else {
        let n = count(ranks as u128);
        let some = cat3(name, " ", n.as_str());
        cat2(some.as_str(), " ranks")
    };
    let pool = count(xp as u128);
    cat5("raising ", what.as_str(), " (", pool.as_str(), " xp to spend)")
}

/// While a raise is waited for nothing else is bought, and two raises are never
/// sent within the least time between them.
pub proof fn law_one_raise_at_a_time(
    m: Memory,
    sheet: Sheet,
    formulas: Seq<Formula>,
    weapon_skill: Option<u32>,
    fighting: bool,
    now: Moment,
)
    ensures
        ({
            let (after, r) = spent(m, sheet, formulas, weapon_skill, fighting, now);
            r.buy is Some ==> {
                &&& after.pending is None
                &&& (m.last_raise is Some ==> spec_since(now, m.last_raise->0) >= RAISE_EVERY)
                &&& (m.pending is Some ==> landed(m.pending->0, sheet) || (m.pending->0.since is Some
                    && spec_since(now, m.pending->0.since->0) >= RAISE_SETTLE))
            }
        }),
{
}

proof fn lemma_held(
    sheet: Sheet,
    offers: Seq<Offer>,
    fighting: bool,
    sulking: Seq<(Pending, Moment)>,
    n: nat,
    i: int,
)
    requires
        n <= offers.len(),
        0 <= i < field_of(sheet, offers, fighting, sulking, n).len(),
    ensures
        ({
            let c = field_of(sheet, offers, fighting, sulking, n)[i];
            c.held == ((fighting && spec_raises_a_maximum(c.raise)) || is_sulking(
                sulking,
                c.raise,
            ))
        }),
    decreases n,
{
    if i < field_of(sheet, offers, fighting, sulking, (n - 1) as nat).len() {
        lemma_held(sheet, offers, fighting, sulking, (n - 1) as nat, i);
    }
}

/// Nothing that raises a maximum is bought in a fight, and nothing that the
/// server would not sell, or has not answered for, is bought again while it is
/// left alone.
pub proof fn law_what_is_held_is_not_bought(
    m: Memory,
    sheet: Sheet,
    formulas: Seq<Formula>,
    weapon_skill: Option<u32>,
    fighting: bool,
    now: Moment,
)
    ensures
        ({
            let (after, r) = spent(m, sheet, formulas, weapon_skill, fighting, now);
            r.buy is Some ==> {
                &&& fighting ==> !spec_raises_a_maximum(r.buy->0.raise)
                &&& !is_sulking(after.sulking, r.buy->0.raise)
            }
        }),
{
    let (after, r) = spent(m, sheet, formulas, weapon_skill, fighting, now);
    if r.buy is Some {
        let offers = spec_raise_offers(sheet, formulas, weapon_skill);
        let field = field_of(sheet, offers, fighting, after.sulking, offers.len());
        let xp = sheet.available_xp as int;
        let to = planned(field, standing(field), xp).0;
        let line = for_sale(field, to);
        lemma_best(line, line.len());
        let i = best(line, line.len())->0;
        lemma_held(sheet, offers, fighting, after.sulking, offers.len(), i);
        assert(!field[i].held);
    }
}

} // verus!
