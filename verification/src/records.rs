//! An item as it is searched, and as it is kept.

use crate::single::Single;
use crate::text::{copy_texts, same};
use vstd::prelude::*;
use vstd::string::*;

verus! {

/// A number in double precision, by its bits. It is carried, never reckoned
/// with.
#[derive(Clone, Copy, Debug, Default, PartialEq, Eq, Structural)]
pub struct Double {
    pub bits: u64,
}

/// What something was picked up for.
#[derive(Clone, Copy, Debug, PartialEq, Eq, Structural)]
pub enum LootAction {
    Keep,
    Sell,
    /// Another word of the loot rules, by its number there.
    Other(u8),
}

/// An item with all that is known of it: what a search looks at.
#[derive(Clone, Debug, PartialEq)]
pub struct ItemStats {
    pub guid: u32,
    pub name: String,
    pub wcid: u32,
    pub item_type: u32,
    pub kind: &'static str,
    pub stack: u32,
    /// How many of it one stack can hold.
    pub max_stack: u32,
    pub wielded: bool,
    pub valid_locations: u32,
    pub container: u32,
    pub value: u32,
    pub burden: u32,
    pub workmanship: Single,
    pub material: &'static str,
    pub structure: u32,
    pub max_structure: u32,
    pub appraised: bool,
    pub damage_low: u32,
    pub damage_high: u32,
    pub damage_type: String,
    pub damage_type_bits: u32,
    pub imbued: u32,
    pub elemental_damage: Single,
    pub crit_frequency: Single,
    pub crit_multiplier: Single,
    pub damage_mod: Single,
    pub ammo_type: u32,
    pub combat_use: u32,
    pub speed: u32,
    pub weapon_skill: String,
    pub weapon_skill_id: u32,
    pub attack_bonus: Double,
    pub defense_bonus: Double,
    pub armor_level: u32,
    pub shield: u32,
    pub spells: Vec<String>,
    pub wield_skill: String,
    pub wield_level: u32,
    pub wield_reqs: Vec<(u32, u32, u32)>,
    pub mana: u32,
    pub max_mana: u32,
    pub spellcraft: u32,
    pub tinks: u32,
    pub bonded: bool,
    pub attuned: bool,
}

/// One item as kept in a snapshot: everything an [`ItemStats`]
/// holds, owned.
#[derive(Clone, Debug, PartialEq)]
pub struct HoldingRecord {
    pub guid: u32,
    pub name: String,
    pub wcid: u32,
    pub item_type: u32,
    pub kind: String,
    pub stack: u32,
    /// How many of it one stack can hold.
    pub max_stack: u32,
    pub wielded: bool,
    pub valid_locations: u32,
    pub container: u32,
    pub value: u32,
    pub burden: u32,
    pub workmanship: Single,
    pub material: String,
    pub structure: u32,
    pub max_structure: u32,
    pub appraised: bool,
    pub damage_low: u32,
    pub damage_high: u32,
    pub damage_type: String,
    pub damage_type_bits: u32,
    pub imbued: u32,
    pub elemental_damage: Single,
    pub crit_frequency: Single,
    pub crit_multiplier: Single,
    pub damage_mod: Single,
    pub ammo_type: u32,
    pub combat_use: u32,
    pub speed: u32,
    pub weapon_skill: String,
    pub weapon_skill_id: u32,
    pub attack_bonus: Double,
    pub defense_bonus: Double,
    pub armor_level: u32,
    pub shield: u32,
    pub spells: Vec<String>,
    pub wield_skill: String,
    pub wield_level: u32,
    pub wield_reqs: Vec<(u32, u32, u32)>,
    pub mana: u32,
    pub max_mana: u32,
    pub spellcraft: u32,
    pub tinks: u32,
    pub bonded: bool,
    pub attuned: bool,
    /// What this was picked up for, when the character that holds it wrote it
    /// down. Absent for anything bought or traded. It travels with the snapshot,
    /// so that what a character carries a thing for can be answered without that
    /// character being logged in.
    pub took: Option<LootAction>,
}

/// An item of which nothing is known.
pub open spec fn unknown_item(s: ItemStats) -> bool {
    &&& s.guid == 0
    &&& s.name@.len() == 0
    &&& s.wcid == 0
    &&& s.item_type == 0
    &&& s.kind@.len() == 0
    &&& s.stack == 0
    &&& s.max_stack == 0
    &&& !s.wielded
    &&& s.valid_locations == 0
    &&& s.container == 0
    &&& s.value == 0
    &&& s.burden == 0
    &&& s.workmanship.bits == 0
    &&& s.material@.len() == 0
    &&& s.structure == 0
    &&& s.max_structure == 0
    &&& !s.appraised
    &&& s.damage_low == 0
    &&& s.damage_high == 0
    &&& s.damage_type@.len() == 0
    &&& s.damage_type_bits == 0
    &&& s.imbued == 0
    &&& s.elemental_damage.bits == 0
    &&& s.crit_frequency.bits == 0
    &&& s.crit_multiplier.bits == 0
    &&& s.damage_mod.bits == 0
    &&& s.ammo_type == 0
    &&& s.combat_use == 0
    &&& s.speed == 0
    &&& s.weapon_skill@.len() == 0
    &&& s.weapon_skill_id == 0
    &&& s.attack_bonus.bits == 0
    &&& s.defense_bonus.bits == 0
    &&& s.armor_level == 0
    &&& s.shield == 0
    &&& s.spells@.len() == 0
    &&& s.wield_skill@.len() == 0
    &&& s.wield_level == 0
    &&& s.wield_reqs@.len() == 0
    &&& s.mana == 0
    &&& s.max_mana == 0
    &&& s.spellcraft == 0
    &&& s.tinks == 0
    &&& !s.bonded
    &&& !s.attuned
}

impl Default for ItemStats {
    fn default() -> (r: ItemStats)
        ensures
            unknown_item(r),
    {
        proof {
            reveal_strlit("");
        }
        ItemStats {
            guid: 0,
            name: String::new(),
            wcid: 0,
            item_type: 0,
            kind: "",
            stack: 0,
            max_stack: 0,
            wielded: false,
            valid_locations: 0,
            container: 0,
            value: 0,
            burden: 0,
            workmanship: Single { bits: 0 },
            material: "",
            structure: 0,
            max_structure: 0,
            appraised: false,
            damage_low: 0,
            damage_high: 0,
            damage_type: String::new(),
            damage_type_bits: 0,
            imbued: 0,
            elemental_damage: Single { bits: 0 },
            crit_frequency: Single { bits: 0 },
            crit_multiplier: Single { bits: 0 },
            damage_mod: Single { bits: 0 },
            ammo_type: 0,
            combat_use: 0,
            speed: 0,
            weapon_skill: String::new(),
            weapon_skill_id: 0,
            attack_bonus: Double { bits: 0 },
            defense_bonus: Double { bits: 0 },
            armor_level: 0,
            shield: 0,
            spells: Vec::new(),
            wield_skill: String::new(),
            wield_level: 0,
            wield_reqs: Vec::new(),
            mana: 0,
            max_mana: 0,
            spellcraft: 0,
            tinks: 0,
            bonded: false,
            attuned: false,
        }
    }
}

/// A record that says nothing.
pub open spec fn unknown_record(s: HoldingRecord) -> bool {
    &&& s.guid == 0
    &&& s.name@.len() == 0
    &&& s.wcid == 0
    &&& s.item_type == 0
    &&& s.kind@.len() == 0
    &&& s.stack == 0
    &&& s.max_stack == 0
    &&& !s.wielded
    &&& s.valid_locations == 0
    &&& s.container == 0
    &&& s.value == 0
    &&& s.burden == 0
    &&& s.workmanship.bits == 0
    &&& s.material@.len() == 0
    &&& s.structure == 0
    &&& s.max_structure == 0
    &&& !s.appraised
    &&& s.damage_low == 0
    &&& s.damage_high == 0
    &&& s.damage_type@.len() == 0
    &&& s.damage_type_bits == 0
    &&& s.imbued == 0
    &&& s.elemental_damage.bits == 0
    &&& s.crit_frequency.bits == 0
    &&& s.crit_multiplier.bits == 0
    &&& s.damage_mod.bits == 0
    &&& s.ammo_type == 0
    &&& s.combat_use == 0
    &&& s.speed == 0
    &&& s.weapon_skill@.len() == 0
    &&& s.weapon_skill_id == 0
    &&& s.attack_bonus.bits == 0
    &&& s.defense_bonus.bits == 0
    &&& s.armor_level == 0
    &&& s.shield == 0
    &&& s.spells@.len() == 0
    &&& s.wield_skill@.len() == 0
    &&& s.wield_level == 0
    &&& s.wield_reqs@.len() == 0
    &&& s.mana == 0
    &&& s.max_mana == 0
    &&& s.spellcraft == 0
    &&& s.tinks == 0
    &&& !s.bonded
    &&& !s.attuned
    &&& s.took is None
}

impl Default for HoldingRecord {
    fn default() -> (r: HoldingRecord)
        ensures
            unknown_record(r),
    {
        HoldingRecord {
            guid: 0,
            name: String::new(),
            wcid: 0,
            item_type: 0,
            kind: String::new(),
            stack: 0,
            max_stack: 0,
            wielded: false,
            valid_locations: 0,
            container: 0,
            value: 0,
            burden: 0,
            workmanship: Single { bits: 0 },
            material: String::new(),
            structure: 0,
            max_structure: 0,
            appraised: false,
            damage_low: 0,
            damage_high: 0,
            damage_type: String::new(),
            damage_type_bits: 0,
            imbued: 0,
            elemental_damage: Single { bits: 0 },
            crit_frequency: Single { bits: 0 },
            crit_multiplier: Single { bits: 0 },
            damage_mod: Single { bits: 0 },
            ammo_type: 0,
            combat_use: 0,
            speed: 0,
            weapon_skill: String::new(),
            weapon_skill_id: 0,
            attack_bonus: Double { bits: 0 },
            defense_bonus: Double { bits: 0 },
            armor_level: 0,
            shield: 0,
            spells: Vec::new(),
            wield_skill: String::new(),
            wield_level: 0,
            wield_reqs: Vec::new(),
            mana: 0,
            max_mana: 0,
            spellcraft: 0,
            tinks: 0,
            bonded: false,
            attuned: false,
            took: None,
        }
    }
}

/// Every word for a kind of item.
pub const KINDS: [&'static str; 24] = [
    "weapon",
    "missile",
    "caster",
    "armor",
    "clothing",
    "jewelry",
    "pack",
    "food",
    "money",
    "gem",
    "key",
    "manastone",
    "comps",
    "writable",
    "portal",
    "salvage",
    "tool",
    "note",
    "service",
    "lifestone",
    "gameboard",
    "trinket",
    "misc",
    "junk",
];

/// A word is one of the words for kinds of item.
pub open spec fn is_kind(word: Seq<char>) -> bool {
    exists|i: int| 0 <= i < KINDS@.len() && (#[trigger] KINDS@[i])@ == word
}

/// The kind word for a stored one: the table's own word when it is one, else
/// what the item's type says.
pub fn kind_static(kind: &str, by_type: &'static str) -> (r: &'static str)
    ensures
        r@ == if is_kind(kind@) {
            kind@
        } else {
            by_type@
        },
{
    let kinds: [&'static str; 24] = KINDS;
    let mut i: usize = 0;
    while i < kinds.len()
        invariant
            i <= kinds.len(),
            kinds == KINDS,
            forall|k: int| 0 <= k < i ==> (#[trigger] KINDS@[k])@ != kind@,
        decreases kinds.len() - i,
    {
        if same(kinds[i], kind) {
            assert(KINDS@[i as int]@ == kind@);
            return kinds[i];
        }
        i = i + 1;
    }
    by_type
}

/// A word is one of the names of materials.
pub open spec fn is_material(names: Seq<&str>, word: Seq<char>) -> bool {
    exists|i: int| 0 <= i < names.len() && (#[trigger] names[i])@ == word
}

/// What a stored material is called: nothing for none, and "?" for a name that
/// the table lacks.
pub open spec fn material_word(names: Seq<&str>, word: Seq<char>) -> Seq<char> {
    if word.len() == 0 || is_material(names, word) {
        word
    } else {
        "?"@
    }
}

/// The material name for a stored one, by looking through the names of the
/// material table; nothing for none and "?" for a name it lacks.
pub fn material_static(material: &str, names: &[&'static str]) -> (r: &'static str)
    ensures
        r@ == material_word(names@, material@),
{
    if material.is_empty() {
        let none: &'static str = "";
        proof {
            reveal_strlit("");
            assert(none@ =~= material@);
        }
        return none;
    }
    let mut i: usize = 0;
    while i < names.len()
        invariant
            i <= names.len(),
            forall|k: int| 0 <= k < i ==> (#[trigger] names@[k])@ != material@,
        decreases names.len() - i,
    {
        if same(names[i], material) {
            assert(names@[i as int]@ == material@);
            return names[i];
        }
        i = i + 1;
    }
    "?"
}

fn copy_reqs(v: &Vec<(u32, u32, u32)>) -> (r: Vec<(u32, u32, u32)>)
    ensures
        r@ == v@,
{
    let mut r: Vec<(u32, u32, u32)> = Vec::new();
    let mut i: usize = 0;
    while i < v.len()
        invariant
            i <= v.len(),
            r@ == v@.take(i as int),
        decreases v.len() - i,
    {
        r.push(v[i]);
        i = i + 1;
        assert(r@ =~= v@.take(i as int));
    }
    assert(v@.take(v@.len() as int) =~= v@);
    r
}

/// A record and an item agree in all that is the same in both: everything but
/// the two words that come out of tables and what it was picked up for.
pub open spec fn agree(r: HoldingRecord, s: ItemStats) -> bool {
    &&& r.guid == s.guid
    &&& r.name == s.name
    &&& r.wcid == s.wcid
    &&& r.item_type == s.item_type
    &&& r.stack == s.stack
    &&& r.max_stack == s.max_stack
    &&& r.wielded == s.wielded
    &&& r.valid_locations == s.valid_locations
    &&& r.container == s.container
    &&& r.value == s.value
    &&& r.burden == s.burden
    &&& r.workmanship == s.workmanship
    &&& r.structure == s.structure
    &&& r.max_structure == s.max_structure
    &&& r.appraised == s.appraised
    &&& r.damage_low == s.damage_low
    &&& r.damage_high == s.damage_high
    &&& r.damage_type == s.damage_type
    &&& r.damage_type_bits == s.damage_type_bits
    &&& r.imbued == s.imbued
    &&& r.elemental_damage == s.elemental_damage
    &&& r.crit_frequency == s.crit_frequency
    &&& r.crit_multiplier == s.crit_multiplier
    &&& r.damage_mod == s.damage_mod
    &&& r.ammo_type == s.ammo_type
    &&& r.combat_use == s.combat_use
    &&& r.speed == s.speed
    &&& r.weapon_skill == s.weapon_skill
    &&& r.weapon_skill_id == s.weapon_skill_id
    &&& r.attack_bonus == s.attack_bonus
    &&& r.defense_bonus == s.defense_bonus
    &&& r.armor_level == s.armor_level
    &&& r.shield == s.shield
    &&& r.spells@ == s.spells@
    &&& r.wield_skill == s.wield_skill
    &&& r.wield_level == s.wield_level
    &&& r.wield_reqs@ == s.wield_reqs@
    &&& r.mana == s.mana
    &&& r.max_mana == s.max_mana
    &&& r.spellcraft == s.spellcraft
    &&& r.tinks == s.tinks
    &&& r.bonded == s.bonded
    &&& r.attuned == s.attuned
}

/// What an item is kept as.
pub open spec fn kept_as(s: ItemStats, r: HoldingRecord) -> bool {
    &&& agree(r, s)
    &&& r.kind@ == s.kind@
    &&& r.material@ == s.material@
    &&& r.took is None
}

/// What a record reads as, by the words of the tables.
pub open spec fn reads_as(
    r: HoldingRecord,
    by_type: Seq<char>,
    materials: Seq<&str>,
    s: ItemStats,
) -> bool {
    &&& agree(r, s)
    &&& s.kind@ == if is_kind(r.kind@) {
        r.kind@
    } else {
        by_type
    }
    &&& s.material@ == material_word(materials, r.material@)
}

/// An item whose two words stand in the tables reads back as it was kept.
pub proof fn law_a_record_reads_back(
    s: ItemStats,
    r: HoldingRecord,
    by_type: Seq<char>,
    materials: Seq<&str>,
    back: ItemStats,
)
    requires
        kept_as(s, r),
        reads_as(r, by_type, materials, back),
        is_kind(s.kind@),
        s.material@.len() == 0 || is_material(materials, s.material@),
    ensures
        back.kind@ == s.kind@,
        back.material@ == s.material@,
        back.spells@ == s.spells@,
        back.wield_reqs@ == s.wield_reqs@,
        back == (ItemStats {
            kind: back.kind,
            material: back.material,
            spells: back.spells,
            wield_reqs: back.wield_reqs,
            ..s
        }),
{
}

/// Two records hold the same.
pub open spec fn same_record(a: HoldingRecord, b: HoldingRecord) -> bool {
    &&& b.spells@ == a.spells@
    &&& b.wield_reqs@ == a.wield_reqs@
    &&& b == (HoldingRecord { spells: b.spells, wield_reqs: b.wield_reqs, ..a })
}

impl HoldingRecord {
    /// The item as it is kept, with nothing decided about what it is for.
    pub fn from(s: &ItemStats) -> (r: HoldingRecord)
        ensures
            kept_as(*s, r),
    {
        HoldingRecord {
            guid: s.guid,
            name: s.name.clone(),
            wcid: s.wcid,
            item_type: s.item_type,
            kind: String::from_str(s.kind),
            stack: s.stack,
            max_stack: s.max_stack,
            wielded: s.wielded,
            valid_locations: s.valid_locations,
            container: s.container,
            value: s.value,
            burden: s.burden,
            workmanship: s.workmanship,
            material: String::from_str(s.material),
            structure: s.structure,
            max_structure: s.max_structure,
            appraised: s.appraised,
            damage_low: s.damage_low,
            damage_high: s.damage_high,
            damage_type: s.damage_type.clone(),
            damage_type_bits: s.damage_type_bits,
            imbued: s.imbued,
            elemental_damage: s.elemental_damage,
            crit_frequency: s.crit_frequency,
            crit_multiplier: s.crit_multiplier,
            damage_mod: s.damage_mod,
            ammo_type: s.ammo_type,
            combat_use: s.combat_use,
            speed: s.speed,
            weapon_skill: s.weapon_skill.clone(),
            weapon_skill_id: s.weapon_skill_id,
            attack_bonus: s.attack_bonus,
            defense_bonus: s.defense_bonus,
            armor_level: s.armor_level,
            shield: s.shield,
            spells: copy_texts(&s.spells),
            wield_skill: s.wield_skill.clone(),
            wield_level: s.wield_level,
            wield_reqs: copy_reqs(&s.wield_reqs),
            mana: s.mana,
            max_mana: s.max_mana,
            spellcraft: s.spellcraft,
            tinks: s.tinks,
            bonded: s.bonded,
            attuned: s.attuned,
            took: None,
        }
    }

    /// Back to the searchable form. `by_type` is the word for the kind of its
    /// item type, `materials` the names of the material table.
    pub fn to_stats(&self, by_type: &'static str, materials: &[&'static str]) -> (r: ItemStats)
        ensures
            reads_as(*self, by_type@, materials@, r),
    {
        ItemStats {
            guid: self.guid,
            name: self.name.clone(),
            wcid: self.wcid,
            item_type: self.item_type,
            kind: kind_static(self.kind.as_str(), by_type),
            stack: self.stack,
            max_stack: self.max_stack,
            wielded: self.wielded,
            valid_locations: self.valid_locations,
            container: self.container,
            value: self.value,
            burden: self.burden,
            workmanship: self.workmanship,
            material: material_static(self.material.as_str(), materials),
            structure: self.structure,
            max_structure: self.max_structure,
            appraised: self.appraised,
            damage_low: self.damage_low,
            damage_high: self.damage_high,
            damage_type: self.damage_type.clone(),
            damage_type_bits: self.damage_type_bits,
            imbued: self.imbued,
            elemental_damage: self.elemental_damage,
            crit_frequency: self.crit_frequency,
            crit_multiplier: self.crit_multiplier,
            damage_mod: self.damage_mod,
            ammo_type: self.ammo_type,
            combat_use: self.combat_use,
            speed: self.speed,
            weapon_skill: self.weapon_skill.clone(),
            weapon_skill_id: self.weapon_skill_id,
            attack_bonus: self.attack_bonus,
            defense_bonus: self.defense_bonus,
            armor_level: self.armor_level,
            shield: self.shield,
            spells: copy_texts(&self.spells),
            wield_skill: self.wield_skill.clone(),
            wield_level: self.wield_level,
            wield_reqs: copy_reqs(&self.wield_reqs),
            mana: self.mana,
            max_mana: self.max_mana,
            spellcraft: self.spellcraft,
            tinks: self.tinks,
            bonded: self.bonded,
            attuned: self.attuned,
        }
    }

    /// The same record again.
    pub fn copy(&self) -> (r: HoldingRecord)
        ensures
            same_record(*self, r),
    {
        HoldingRecord {
            guid: self.guid,
            name: self.name.clone(),
            wcid: self.wcid,
            item_type: self.item_type,
            kind: self.kind.clone(),
            stack: self.stack,
            max_stack: self.max_stack,
            wielded: self.wielded,
            valid_locations: self.valid_locations,
            container: self.container,
            value: self.value,
            burden: self.burden,
            workmanship: self.workmanship,
            material: self.material.clone(),
            structure: self.structure,
            max_structure: self.max_structure,
            appraised: self.appraised,
            damage_low: self.damage_low,
            damage_high: self.damage_high,
            damage_type: self.damage_type.clone(),
            damage_type_bits: self.damage_type_bits,
            imbued: self.imbued,
            elemental_damage: self.elemental_damage,
            crit_frequency: self.crit_frequency,
            crit_multiplier: self.crit_multiplier,
            damage_mod: self.damage_mod,
            ammo_type: self.ammo_type,
            combat_use: self.combat_use,
            speed: self.speed,
            weapon_skill: self.weapon_skill.clone(),
            weapon_skill_id: self.weapon_skill_id,
            attack_bonus: self.attack_bonus,
            defense_bonus: self.defense_bonus,
            armor_level: self.armor_level,
            shield: self.shield,
            spells: copy_texts(&self.spells),
            wield_skill: self.wield_skill.clone(),
            wield_level: self.wield_level,
            wield_reqs: copy_reqs(&self.wield_reqs),
            mana: self.mana,
            max_mana: self.max_mana,
            spellcraft: self.spellcraft,
            tinks: self.tinks,
            bonded: self.bonded,
            attuned: self.attuned,
            took: self.took,
        }
    }
}

} // verus!
