use ac_client::carrying::{
    burden, burden_room, carry_room, laden, room_for_loot, society, Load, Packs, Property,
    CARRY_AUGMENTATION, ENCUMBRANCE_VAL, FACTION1_BITS,
};
use ac_client::casting::{
    ammo_carried, burns, can_craft_ammo, component_targets, spells_cast, Book, ClassOf, Craft,
    Ingredient, Recipe,
};
use ac_client::clock::{Moment, SECOND};
use ac_client::config::{Growth, Team};
use ac_client::counters::{Shop, Ware};
use ac_client::grow::{bought_as, bought_to_sell};
use ac_client::logistics::{GroupMode, Plan, Restock, Stage, Supplies};
use ac_client::needs::{
    carried_folded, carried_named, component_name, grow_needs_with, leaving_of, stock, AmmoLine,
    CompLine, Piled, Short,
    Stores,
};
use ac_client::orders::Order;
use ac_client::party::{
    grow_mode, holding_orders, is_quartermaster, party_supplies, quartermaster_name, rough_cost,
    supplies, vendor_shortfall_with, Mate, Report,
};
use ac_client::records::LootAction;
use ac_client::single::Single;
use ac_client::state::State;
use ac_client::things::{Thing, MISSILE_AMMO};
use ac_client::wares::{NeedKind, ARROW};

const NOW: Moment = 100_000 * SECOND;
const SPELL_COMPONENTS: u32 = 0x1000;
const SCARAB: u32 = 691;
const TAPER: u32 = 20631;

fn single(x: f32) -> Single {
    Single { bits: x.to_bits() }
}

fn thing(guid: u32, name: &str, wcid: u32, stack: u32) -> Thing {
    Thing {
        guid,
        wcid,
        name: name.into(),
        item_type: SPELL_COMPONENTS,
        valid_locations: 0,
        value: 5 * stack,
        burden: stack,
        stack,
        known: true,
        offered: false,
        barred_full: false,
        barred_empty: false,
        leaving: false,
    }
}

fn leaving(mut t: Thing) -> Thing {
    t.leaving = true;
    t
}

fn comp(wcid: u32, name: &str, keep: u32, carried: u32) -> CompLine {
    CompLine {
        wcid: Some(wcid),
        name: name.into(),
        keep,
        carried,
        buyable: true,
        bought_to_sell: false,
    }
}

fn short(what: &str, have: u32, keep: u32, urgent: bool) -> Short {
    Short {
        what: what.into(),
        have,
        keep,
        from: None,
        urgent,
    }
}

fn caster<'a>(shorts: &'a [Short], comps: &'a [CompLine]) -> Stores<'a> {
    Stores {
        shorts,
        heals_with_kits: false,
        ammo: None,
        casts: true,
        comps,
    }
}

#[test]
fn a_casters_tapers_are_stock_and_its_peas_are_not() {
    // The tapers are stock, scaled from the line; no cast burns a pea, so no
    // line is kept of one.
    let cfg = Growth::default();
    let things = [
        leaving(thing(0x10, "Iron Pea", 8328, 1)),
        leaving(thing(0x11, "Lead Pea", 8329, 1)),
        thing(0x12, "Prismatic Taper", TAPER, 78),
    ];
    let gone = leaving_of(&things);
    let comps = [comp(TAPER, "Prismatic Taper", 100, 78)];
    let needs = grow_needs_with(&caster(&[], &comps), &gone, &cfg);
    assert_eq!(needs.len(), 1);
    let taper = &needs[0];
    assert_eq!(taper.kind, NeedKind::Component(TAPER));
    assert_eq!((taper.have, taper.keep, taper.want), (78, 100, 22));
    let wants = vendor_shortfall_with(&needs);
    assert_eq!(wants.len(), 1);
    assert_eq!((wants[0].wcid, wants[0].short), (TAPER, 22));
}

#[test]
fn what_is_leaving_is_not_stock() {
    // Seventy-eight tapers kept and five hundred on their way out, against a
    // line of a hundred: the line is twenty-two short.
    let cfg = Growth::default();
    let things = [
        thing(0x12, "Prismatic Taper", TAPER, 78),
        leaving(thing(0x15, "Prismatic Taper", TAPER, 500)),
    ];
    let gone = leaving_of(&things);
    assert_eq!(carried_named(&things, " prismatic TAPER "), 578);
    assert_eq!(stock(&things, &gone, "Prismatic Taper"), 78);
    assert_eq!(gone.of(TAPER), 500);
    assert_eq!(gone.named("taper"), 500);
    let line = [short("Prismatic Taper", stock(&things, &gone, "Prismatic Taper"), 100, false)];
    let comps = [comp(TAPER, "Prismatic Taper", 100, 578)];
    let needs = grow_needs_with(&caster(&line, &comps), &gone, &cfg);
    let taper = needs.iter().find(|n| n.kind == NeedKind::Component(TAPER)).unwrap();
    assert_eq!((taper.have, taper.want), (78, 22));
    let line = needs
        .iter()
        .find(|n| n.kind == NeedKind::Named("Prismatic Taper".into()))
        .unwrap();
    assert_eq!((line.have, line.want), (78, 22));
    // With the five hundred sold, nothing changes but the count.
    let left = [thing(0x12, "Prismatic Taper", TAPER, 78)];
    let gone = leaving_of(&left);
    let comps = [comp(TAPER, "Prismatic Taper", 100, 78)];
    let needs = grow_needs_with(&caster(&[], &comps), &gone, &cfg);
    assert_eq!((needs[0].have, needs[0].want), (78, 22));
}

#[test]
fn a_kind_that_would_be_sold_as_it_arrives_is_not_bought() {
    let cfg = Growth::default();
    let gone = leaving_of(&[]);
    let mut scarab = comp(SCARAB, "Lead Scarab", 40, 1);
    let needs = grow_needs_with(&caster(&[], &[scarab.clone()]), &gone, &cfg);
    assert_eq!((needs[0].have, needs[0].want, needs[0].urgent), (1, 39, true));
    assert!(vendor_shortfall_with(&needs).iter().any(|w| w.wcid == SCARAB));
    scarab.bought_to_sell = true;
    assert!(grow_needs_with(&caster(&[], &[scarab.clone()]), &gone, &cfg).is_empty());
    // What nobody sells is a need, never an urgent one, and never on the list.
    scarab.bought_to_sell = false;
    scarab.buyable = false;
    let needs = grow_needs_with(&caster(&[], &[scarab]), &gone, &cfg);
    assert!(!needs[0].urgent && !needs[0].buyable);
    assert!(vendor_shortfall_with(&needs).is_empty());
    // Nothing is counted for one that casts nothing, or has no class.
    let nameless = CompLine {
        wcid: None,
        ..comp(0, "Odd Powder", 10, 0)
    };
    assert!(grow_needs_with(&caster(&[], &[nameless]), &gone, &cfg).is_empty());
    let comps = [comp(SCARAB, "Lead Scarab", 40, 1)];
    let idle = Stores {
        casts: false,
        ..caster(&[], &comps)
    };
    assert!(grow_needs_with(&idle, &gone, &cfg).is_empty());
}

#[test]
fn a_purchase_is_judged_as_it_will_arrive() {
    let ware = |wcid: u32, value: u32| Ware {
        wcid,
        name: "Lead Scarab".into(),
        value,
        charge: value,
    };
    let shop = |sells: Vec<Ware>| Shop {
        name: "x".into(),
        sells,
        buys: 0,
        min_value: 0,
        max_value: 0,
    };
    let shops = [shop(vec![]), shop(vec![ware(1, 7), ware(SCARAB, 5)])];
    let shelf = vec![ware(SCARAB, 6)];
    let here = bought_as(SCARAB, "Lead Scarab", 39, "comps", Some(&shelf), &shops);
    assert_eq!((here.value, here.stack, here.max_stack), (6 * 39, 39, 1_000));
    assert_eq!((here.item_type, here.kind), (SPELL_COMPONENTS, "comps"));
    let away = bought_as(SCARAB, "Lead Scarab", 0, "comps", None, &shops);
    assert_eq!((away.value, away.stack), (5, 1));
    let unknown = bought_as(99, "Odd Powder", 10, "comps", Some(&shelf), &shops);
    assert_eq!(unknown.value, 0);
    let dear = bought_as(1, "Gold", u32::MAX, "comps", None, &shops);
    assert_eq!(dear.value, u32::MAX);
    assert!(bought_to_sell(true, Some(LootAction::Sell)));
    assert!(!bought_to_sell(true, Some(LootAction::Keep)));
    assert!(!bought_to_sell(true, None));
    assert!(!bought_to_sell(false, Some(LootAction::Sell)), "no profile decides nothing");
}

#[test]
fn arrows_the_player_said_to_sell_are_not_counted_as_the_launchers_stock() {
    let mut cfg = Growth::default();
    cfg.ammo_keep = 250;
    let mut arrows = thing(0x31, "Arrow", 300, 300);
    arrows.valid_locations = MISSILE_AMMO;
    let needs_of = |things: &[Thing]| {
        let (kind, carried) = ammo_carried(Some(ARROW), things).expect("a bow in hand");
        assert_eq!((kind, carried), (ARROW, 300));
        let line = AmmoLine {
            kind,
            name: "Arrow".into(),
            carried,
            can_craft: false,
        };
        let stores = Stores {
            shorts: &[],
            heals_with_kits: false,
            ammo: Some(&line),
            casts: false,
            comps: &[],
        };
        grow_needs_with(&stores, &leaving_of(things), &cfg)
    };
    let needs = needs_of(&[arrows.clone()]);
    assert!(
        !needs.iter().any(|n| n.kind == NeedKind::Ammo(ARROW)),
        "three hundred in the pack: {needs:?}"
    );
    let needs = needs_of(&[leaving(arrows)]);
    let arrows = needs
        .iter()
        .find(|n| n.kind == NeedKind::Ammo(ARROW))
        .unwrap_or_else(|| panic!("the arrows it will be short of: {needs:?}"));
    assert_eq!((arrows.have, arrows.want), (0, 250));
}

#[test]
fn ammunition_can_be_made_from_a_shaft_and_a_head() {
    let things = [thing(1, "Arrowshafts", 500, 10), thing(2, "Arrowheads", 501, 10)];
    let ways = [Craft {
        source: 500,
        target: 501,
    }];
    assert!(can_craft_ammo(true, &ways, &things));
    assert!(!can_craft_ammo(false, &ways, &things));
    assert!(!can_craft_ammo(true, &ways, &things[..1]));
    assert_eq!(ammo_carried(None, &things), None);
}

#[test]
fn a_line_is_bought_once_and_only_where_it_helps() {
    let cfg = Growth::default();
    let gone = leaving_of(&[]);
    let lines = [
        short("Healing Kit", 0, 5, true),
        short("  ", 0, 5, true),
        short("Mana Stone", 2, 5, true),
        short("Mana Stone", 0, 9, false),
        short("Lockpick", 5, 5, true),
        short("Nothing", 0, 0, true),
    ];
    let stores = Stores {
        shorts: &lines,
        heals_with_kits: false,
        ammo: None,
        casts: false,
        comps: &[],
    };
    let needs = grow_needs_with(&stores, &gone, &cfg);
    let names: Vec<(&str, u32, bool)> = needs
        .iter()
        .map(|n| (n.name.as_str(), n.want, n.urgent))
        .collect();
    assert_eq!(names, [("Mana Stone", 3, true)]);
    let trained = Stores {
        heals_with_kits: true,
        ..stores
    };
    assert_eq!(grow_needs_with(&trained, &gone, &cfg).len(), 2);
    let mine = "A".to_string();
    let table = "B".to_string();
    assert_eq!(component_name(Some(&mine), Some(&table), None, 7), "A");
    assert_eq!(component_name(None, Some(&table), None, 7), "B");
}

fn recipe(loss: f32, parts: &[(u32, f32)]) -> Recipe {
    Recipe {
        loss: single(loss),
        parts: parts
            .iter()
            .map(|(id, cdm)| Ingredient {
                id: *id,
                cdm: Some(single(*cdm)),
            })
            .collect(),
    }
}

#[test]
fn a_casters_components_are_kept_in_step_with_its_tapers() {
    const TAPERS: u32 = 188;
    // A bolt burns a scarab a tenth as fast as a taper; a heal burns an herb
    // that no bolt shares, half as fast.
    let bolt = recipe(0.5, &[(1, 0.1), (TAPERS, 1.0)]);
    let heal = recipe(0.25, &[(7, 1.0), (TAPERS, 1.0)]);
    let keep = |recipes: &[Recipe], id: u32| {
        component_targets(recipes, TAPERS, 100)
            .iter()
            .find(|t| t.id == id)
            .map(|t| t.keep)
    };
    assert_eq!(keep(&[bolt.clone()], TAPERS), Some(100));
    assert_eq!(keep(&[bolt.clone()], 1), Some(10));
    assert_eq!(keep(&[bolt.clone()], 7), None, "no spell of a war mage's burns the herb");
    assert_eq!(keep(&[bolt.clone(), heal.clone()], 7), Some(50));
    // Never less than a fiftieth, and in the order of their numbers.
    let rare = recipe(0.5, &[(3, 0.0001), (TAPERS, 1.0)]);
    assert_eq!(keep(&[rare], 3), Some(2));
    let ids: Vec<u32> = component_targets(&[bolt.clone(), heal], TAPERS, 100)
        .iter()
        .map(|t| t.id)
        .collect();
    assert_eq!(ids, [1, 7, TAPERS]);
    // What burns at all, by weenie class.
    let classes = [ClassOf { id: 1, wcid: SCARAB }, ClassOf { id: 7, wcid: 77 }];
    assert_eq!(burns(&[bolt], TAPERS, &classes), vec![SCARAB]);
}

#[test]
fn every_spell_that_is_cast_is_stocked_for() {
    const FLAME_BOLT_I: u32 = 27;
    const HEAL_SELF_V: u32 = 1160;
    let none: &[u32] = &[];
    let book = |known: &'static [u32], manages_mana: bool| Book {
        known,
        buffs: none,
        named_buffs: none,
        bolts: &[FLAME_BOLT_I],
        bolts_named: false,
        named_bolts: none,
        vulnerabilities: none,
        imperils: none,
        debuffs: none,
        healer: false,
        heal_other: Some(9),
        heals: &[HEAL_SELF_V],
        to_health: none,
        manages_mana,
        stamina: &[5],
        to_mana: none,
        recalls: none,
    };
    assert_eq!(spells_cast(&book(&[FLAME_BOLT_I, 5], false)), vec![FLAME_BOLT_I]);
    assert_eq!(spells_cast(&book(&[HEAL_SELF_V, 5], false)), vec![FLAME_BOLT_I, HEAL_SELF_V]);
    assert_eq!(spells_cast(&book(&[HEAL_SELF_V, 5], true)), vec![5, FLAME_BOLT_I, HEAL_SELF_V]);
}

#[test]
fn the_burden_is_the_servers_word_or_what_hangs_on_the_character() {
    let pack = [thing(1, "Plate", 1, 6_000)];
    let worn = [thing(2, "Sword", 2, 500)];
    let told = [
        Property {
            key: ENCUMBRANCE_VAL,
            value: 7_000,
        },
        Property {
            key: FACTION1_BITS,
            value: 4,
        },
    ];
    let silent = Load {
        ints: &[],
        main_pack: &pack,
        wielded: &worn,
        strength: 60,
    };
    assert_eq!(burden(&silent), (6_500, 9_000));
    let heard = Load {
        ints: &told,
        main_pack: &pack,
        wielded: &worn,
        strength: 60,
    };
    assert_eq!(burden(&heard), (7_000, 9_000));
    assert_eq!(burden_room(&heard), 27_000 - 7_000);
    assert_eq!(carry_room(&heard, 0, single(1.5)), 18_000 - 7_000);
    assert!(!laden(&heard, 0, single(1.5), None));
    assert!(laden(&heard, 7_000, single(0.5), None));
    assert_eq!(society(&told), 4);
    assert_eq!(society(&[]), 0);
    let strong = [Property {
        key: CARRY_AUGMENTATION,
        value: 1,
    }];
    let augmented = Load {
        ints: &strong,
        main_pack: &[],
        wielded: &[],
        strength: 60,
    };
    assert!(burden(&augmented).1 > 9_000);
    let packs = Packs { free: vec![3, 4] };
    assert_eq!(packs.free_space(), 4, "the roomiest");
    assert_eq!(packs.room_anywhere(), 7);
    assert!(!packs.pack_low_on_room(2));
    assert!(packs.pack_low_on_room(20));
    let room = room_for_loot(&heard, &packs, 2, true, 0, single(1.5));
    assert!(!room.pack_low && !room.past_the_wall);
    assert_eq!(room.carry, 18_000 - 7_000);
    // With no body waiting the weight is not worked out.
    let room = room_for_loot(&heard, &packs, 2, false, 0, single(1.5));
    assert_eq!(room.carry, u32::MAX);
}

fn mate(name: &str, order: &[(&str, u32)]) -> Supplies {
    Supplies {
        name: name.into(),
        order: order.iter().map(|(n, c)| (n.to_string(), *c)).collect(),
        free_space: 40,
        stocked: true,
        ..Supplies::default()
    }
}

fn known_as(name: &str, supplies: Supplies) -> Mate {
    Mate {
        name: name.into(),
        supplies,
    }
}

#[test]
fn a_character_reports_its_worst_line_and_its_bill() {
    let cfg = Growth::default();
    let gone = leaving_of(&[]);
    let comps = [
        comp(TAPER, "Prismatic Taper", 100, 25),
        comp(SCARAB, "Lead Scarab", 40, 20),
    ];
    let needs = grow_needs_with(&caster(&[], &comps), &gone, &cfg);
    let things = [thing(1, "prismatic taper", TAPER, 1), thing(2, "Other", 1, 1)];
    assert_eq!(rough_cost(&things, &needs[0]), 5 * 75);
    assert_eq!(rough_cost(&things, &needs[1]), 0, "nothing to go by");
    let report = |spendable: u32, futile: bool| Report {
        name: "Aldric".into(),
        needs: &needs,
        things: &things,
        salables: &[],
        carried_for: None,
        policy: Restock::default(),
        pack_full: false,
        laden: false,
        on_a_run: false,
        handed_over: false,
        holding_orders: false,
        spendable,
        futile,
        room_anywhere: 12,
    };
    let s = supplies(report(500, false), &cfg);
    assert_eq!(s.level, single(0.25));
    assert!(!s.stocked && !s.broke && !s.sale);
    assert_eq!((s.bill, s.purse, s.free_space), (375, 500, 12));
    assert_eq!(
        s.order,
        vec![("Prismatic Taper".to_string(), 75), ("Lead Scarab".to_string(), 20)]
    );
    assert!(supplies(report(0, false), &cfg).broke, "short, with nothing to pay with");
    assert!(supplies(report(500, true), &cfg).broke, "short, and the last trip was for nothing");
    let party = party_supplies(vec![known_as("Bryn", mate("Bryn", &[]))], s);
    assert_eq!(party.len(), 2);
    assert_eq!(quartermaster_name(Plan::Quartermaster, &party).as_deref(), Some("Bryn"));
    assert_eq!(quartermaster_name(Plan::Everyone, &party), None);
    assert!(is_quartermaster("Bryn", Plan::Quartermaster, &party));
    assert!(!is_quartermaster("Aldric", Plan::Quartermaster, &party));
    assert!(!is_quartermaster("", Plan::Quartermaster, &party));
}

#[test]
fn the_runner_holds_what_others_ordered() {
    let mates = [
        known_as("Bryn", mate("Bryn", &[("Lead Scarab", 5), ("Myrrh", 0)])),
        known_as("Me", mate("Me", &[("Taper", 5)])),
    ];
    assert!(holding_orders(&mates, "Me", &[thing(1, "lead scarab", 1, 1)]));
    assert!(!holding_orders(&mates, "Me", &[thing(1, "Taper", 1, 1)]), "its own order");
    assert!(!holding_orders(&mates, "Me", &[thing(1, "Myrrh", 1, 1)]), "nothing is wanted of it");
    assert!(!holding_orders(&mates, "Me", &[]));
    // A mate is known by its own name, whatever its report is headed.
    let mates = [
        known_as("Me", mate("", &[("Taper", 5)])),
        known_as("Bryn", mate("Me", &[("Lead Scarab", 5)])),
    ];
    assert!(!holding_orders(&mates, "Me", &[thing(1, "Taper", 1, 1)]), "its own order");
    assert!(holding_orders(&mates, "Me", &[thing(1, "Lead Scarab", 1, 1)]));
}

#[test]
fn a_party_changes_its_mind_together_and_gives_a_long_trip_up() {
    let mut team = Team {
        enabled: true,
        restock: Restock {
            together: true,
            ..Restock::default()
        },
    };
    let mut st = State::default();
    let mut out = vec![];
    let mut low = mate("Bryn", &[]);
    low.level = single(0.1);
    low.stocked = false;
    let party = [low, mate("Me", &[])];
    // On its own it is always hunting.
    assert_eq!(grow_mode(&mut st, &team, &party, 0, NOW, &mut out), GroupMode::Hunting);
    assert!(out.is_empty());
    let mode = grow_mode(&mut st, &team, &party, 1, NOW, &mut out);
    assert_eq!(mode, GroupMode::Restocking(Stage::Shopping));
    assert_eq!(st.mode_since, Some(NOW));
    assert!(matches!(&out[0], Order::Note(s) if s.starts_with("the party is shopping: ")));
    // The trip drags on.
    team.restock.give_up_after = single(60.0);
    let mode = grow_mode(&mut st, &team, &party, 1, NOW + 60 * SECOND, &mut out);
    assert_eq!(mode, GroupMode::Restocking(Stage::Shopping), "not a moment early");
    let late = NOW + 61 * SECOND;
    assert_eq!(grow_mode(&mut st, &team, &party, 1, late, &mut out), GroupMode::Hunting);
    assert_eq!(st.mode_because, "the trip to town took too long");
    assert_eq!(st.round, 0);
}

#[test]
fn stacks_are_counted_by_the_words_in_their_names() {
    let pile = |folded: &str, stack: u32| Piled {
        folded: folded.into(),
        stack,
    };
    let piles = [pile("prismatic taper", 78), pile("lead scarab", 3), pile("taper", 0)];
    assert_eq!(carried_folded(&piles, "taper"), 79);
    assert_eq!(carried_folded(&piles, "Taper"), 0, "in small letters already");
    assert_eq!(carried_folded(&piles, ""), 82);
    let gone = leaving_of(&[leaving(thing(1, "Prismatic Taper", TAPER, 5))]);
    assert_eq!(gone.named_folded("taper"), 5);
    assert_eq!(gone.named_folded("TAPER"), 0);
    assert_eq!(gone.named_folded(""), 0);
    assert_eq!(gone.ammo(), 0);
}
