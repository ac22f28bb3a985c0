use ac_client::clock::{SECOND, MINUTE};
use ac_client::config::Growth;
use ac_client::counters::{Errand, Forecast, Shop, Want, Ware};
use ac_client::place::Spot;
use ac_client::records::LootAction;
use ac_client::single::Single;
use ac_client::stops::next_ways;
use ac_client::things::{
    for_sale, loot_burden, loot_for_sale, purse, salables, sale_list, sold_by_profile, spendable,
    weapon_in_hand,
    Thing, Window, MISSILE_AMMO,
    MONEY, PROMISSORY_NOTE,
};
use ac_client::vendors::{better_counter, choose_counter, Choice, Stand, Way};
use ac_client::wares::{worth_a_sale_run, Need, NeedKind, Salable};
use ac_client::ways::{gem_ways, nearest_way, ways_out, Bearings, Gem};

const ARMOR: u32 = 0x2;
const GEM: u32 = 0x800;
const SPELL_COMPONENTS: u32 = 0x1000;
const LIFESTONE: u32 = 0x1000_0000;

fn single(x: f32) -> Single {
    Single { bits: x.to_bits() }
}

fn at(x: f32, y: f32) -> Spot {
    Spot {
        x: single(x),
        y: single(y),
    }
}

fn salable(guid: u32, item_type: u32, value: u32, stack: u32) -> Salable {
    Salable {
        guid,
        item_type,
        value,
        stack,
    }
}

#[test]
fn loot_for_a_counter_is_reason_enough_for_a_run() {
    let cfg = Growth::default();
    let minutes = |m: u64| Some(m * MINUTE);
    let two_peas = [
        salable(1, SPELL_COMPONENTS, 2_500, 1),
        salable(2, SPELL_COMPONENTS, 500, 1),
    ];
    // Three thousand at face is not worth the walk on its own...
    assert_eq!(worth_a_sale_run(&two_peas, None, &cfg), None);
    assert_eq!(worth_a_sale_run(&two_peas, minutes(5), &cfg), None);
    // ...but it is not carried about all afternoon either.
    let why = worth_a_sale_run(&two_peas, minutes(15), &cfg).expect("a quarter of an hour");
    assert!(why.contains("carried 15 min"), "{why}");
    // Worth enough is reason at once, and a stack is worth the lot.
    let gem = [salable(3, GEM, 5_000, 1)];
    let why = worth_a_sale_run(&gem, None, &cfg).expect("five thousand");
    assert!(why.contains("5000 pyreals"), "{why}");
    let peas = [salable(4, SPELL_COMPONENTS, 10 * 500, 10)];
    assert!(worth_a_sale_run(&peas, None, &cfg).is_some());
    // So is an armful, however cheap: the slots are going.
    let junk: Vec<Salable> = (0..8).map(|i| salable(10 + i, ARMOR, 50, 1)).collect();
    let why = worth_a_sale_run(&junk, None, &cfg).expect("an armful");
    assert!(why.contains("8 things"), "{why}");
    assert_eq!(worth_a_sale_run(&junk[..7], None, &cfg), None);
    // The count is of stacks, not of things.
    assert_eq!(worth_a_sale_run(&[salable(5, ARMOR, 400, 8)], None, &cfg), None);
    let mut seven_and_a_stack = junk[..7].to_vec();
    seven_and_a_stack.push(salable(20, ARMOR, 50, 10));
    assert!(worth_a_sale_run(&seven_and_a_stack, None, &cfg).is_some());
    // Nothing for a counter is no reason, however long since.
    assert_eq!(worth_a_sale_run(&[], minutes(60), &cfg), None);
    // Each rule is off at zero.
    let off = Growth {
        sell_run_value: 0,
        sell_run_count: 0,
        sell_run_patience: single(0.0),
        ..cfg
    };
    assert_eq!(worth_a_sale_run(&junk, minutes(60), &off), None);
    assert_eq!(worth_a_sale_run(&gem, minutes(60), &off), None);
}

#[test]
fn a_patience_too_large_for_a_duration_turns_the_rule_off() {
    let cfg = Growth {
        sell_run_patience: single(1e20),
        ..Growth::default()
    };
    let pea = [salable(1, SPELL_COMPONENTS, 500, 1)];
    assert_eq!(worth_a_sale_run(&pea, Some(60 * 60 * SECOND), &cfg), None);
}

#[test]
fn what_the_player_has_not_set_is_as_it_comes() {
    let g = Growth::default();
    assert!(g.auto_xp && g.hunt_grounds && g.town_runs);
    assert_eq!(g.sell_run_value, 5_000);
    assert_eq!(g.sell_run_count, 8);
    assert_eq!(g.sell_run_patience, single(15.0 * 60.0));
    assert_eq!(g.level_margin, 8);
    assert_eq!(g.tactic, None, "left to the ground");
}

#[test]
fn a_sale_is_ranked_on_what_the_counter_pays() {
    let look = |takings: u32, selling: usize, stocks: usize| Forecast {
        takings,
        selling,
        stocks: vec!["something".into(); stocks],
        cheapest: if stocks > 0 { 10 } else { 0 },
        purse: 100,
        ..Forecast::default()
    };
    let better = |errand: Errand, a: (&Forecast, f32), b: (&Forecast, f32)| {
        better_counter(errand, (a.0, single(a.1)), (b.0, single(b.1)))
    };
    let tailor = look(0, 0, 2);
    let archmage = look(2_700, 2, 0);
    assert!(Errand::Buy.served_by(&tailor));
    assert!(!Errand::Sell.served_by(&tailor), "buys none of it");
    assert!(Errand::Sell.served_by(&archmage));
    assert_eq!(better(Errand::Buy, (&tailor, 300.0), (&archmage, 20.0)), Choice::First);
    assert_eq!(better(Errand::Sell, (&archmage, 300.0), (&tailor, 20.0)), Choice::First);
    // Between two that buy: what they pay, then how much of the pack they take,
    // then the shelf, then the walk.
    let scriveners = look(500, 2, 0);
    let broker = look(950, 2, 0);
    assert_eq!(better(Errand::Sell, (&broker, 380.0), (&scriveners, 80.0)), Choice::First);
    let takes_more = look(950, 3, 0);
    assert_eq!(better(Errand::Sell, (&takes_more, 380.0), (&broker, 80.0)), Choice::First);
    let stocked_too = look(950, 3, 1);
    assert_eq!(better(Errand::Sell, (&stocked_too, 380.0), (&takes_more, 80.0)), Choice::First);
    assert_eq!(better(Errand::Sell, (&broker, 80.0), (&broker, 380.0)), Choice::First);
    assert_eq!(better(Errand::Sell, (&broker, 380.0), (&broker, 80.0)), Choice::Second);
    assert_eq!(better(Errand::Sell, (&broker, 80.0), (&broker, 80.0)), Choice::Either);
}

/// A counter: what it buys and at how many tenths, and what it sells.
fn stand(name: &str, buys: u32, tenths: u32, sells: &[&str], pack: &[Salable]) -> Stand {
    Stand {
        shop: Shop {
            name: name.into(),
            sells: sells
                .iter()
                .map(|n| Ware {
                    wcid: 1,
                    name: (*n).into(),
                    value: 50,
                    charge: 60,
                })
                .collect(),
            buys,
            min_value: 0,
            max_value: 0,
        },
        at: at(0.0, 0.0),
        open: true,
        held: false,
        paid: pack.iter().map(|it| Some(it.each() * tenths / 10)).collect(),
    }
}

#[test]
fn a_run_to_sell_goes_to_a_counter_that_buys_what_it_carries() {
    let peas = [
        salable(1, SPELL_COMPONENTS, 2_500, 1),
        salable(2, SPELL_COMPONENTS, 500, 1),
    ];
    let town = |pack: &[Salable]| {
        vec![
            stand("Tailor", ARMOR, 9, &["Tunic"], pack),
            stand("Archmage Cindrue", SPELL_COMPONENTS, 9, &["Prismatic Taper"], pack),
            stand("Pawn Shop", SPELL_COMPONENTS | ARMOR, 8, &["Healing Kit"], pack),
        ]
    };
    let near: Vec<Option<Single>> = [20.0, 150.0, 500.0].iter().map(|d| Some(single(*d))).collect();
    let here = town(&peas);
    let choose = |errand: Errand, wants: &[Want], purse: u32, pack: &[Salable]| {
        let town = town(pack);
        choose_counter(&town, &near, errand, wants, purse, pack)
    };
    let (shop, look) = choose(Errand::Sell, &[], 0, &peas).expect("nobody buys peas");
    assert_eq!(here[shop].shop.name, "Archmage Cindrue");
    assert_eq!(look.selling, 2);
    assert_eq!(look.takings, 2_250 + 450, "nine tenths of both");

    // With a healing kit on the list, the trip to buy goes to a counter with
    // kits, which also takes peas at eight tenths...
    let kits = Need {
        name: "Healing Kit".into(),
        want: 1,
        have: 0,
        keep: 1,
        urgent: true,
        buyable: true,
        from: None,
        kind: NeedKind::Named("Healing Kit".into()),
    };
    let wants = [Want {
        need: &kits,
        needle: "healing kit".to_string(),
    }];
    let (to_buy, look) = choose(Errand::Buy, &wants, 10_000, &peas).expect("no kits");
    assert!(look.covers_it());
    assert_ne!(here[to_buy].shop.name, "Archmage Cindrue");
    assert_eq!(here[to_buy].shop.name, "Pawn Shop");
    // ...while the trip to sell, list and all, goes where the peas fetch most.
    let (to_sell, look) = choose(Errand::Sell, &wants, 10_000, &peas).unwrap();
    assert_eq!(here[to_sell].shop.name, "Archmage Cindrue");
    assert!(look.takings > 2_400, "{}", look.takings);

    // Nothing in town buys a lifestone: no counter, and no falling back on the
    // nearest one.
    let odd = [salable(3, LIFESTONE, 1_000, 1)];
    assert!(choose(Errand::Sell, &[], 0, &odd).is_none());
    assert!(choose(Errand::Buy, &[], 0, &odd).is_none());
}

#[test]
fn a_forecast_says_why_it_was_picked() {
    let look = Forecast {
        shop: "Archmage".into(),
        stocks: vec!["Taper".into()],
        missing: vec!["Scarab".into()],
        bill: 100,
        cheapest: 5,
        purse: 50,
        takings: 20,
        selling: 2,
    };
    assert_eq!(look.funds(), 70);
    assert!(!look.covers_it());
    assert!(look.worth_going());
    assert!(look.tell().contains("Scarab"), "{}", look.tell());
    assert!(!look.why_it_was_picked().is_empty());
}

fn way(name: &str, x: f32) -> Way {
    Way {
        at: at(x, 0.0),
        name: name.into(),
    }
}

#[test]
fn a_gem_into_a_hub_puts_the_towns_within_reach() {
    // A gem that lands outdoors is its landing and nothing more.
    let farms = Gem {
        name: "Cragstone Farms Portal Gem".into(),
        exit: at(100.0, 0.0),
        exit_cell: 0xBB9F_0012,
        onward: vec![way("Portal to Nowhere", 5_000.0)],
    };
    assert_eq!(gem_ways(&[farms]).len(), 1);
    // One that comes out indoors, in a hub, reaches what its portals reach.
    let network = Gem {
        name: "Town Network Portal Gem".into(),
        exit: at(0.0, 0.0),
        exit_cell: 0x0007_0145,
        onward: vec![way("Portal to Holtburg", 9_000.0), way("Portal to Cragstone", 20_000.0)],
    };
    let ways = gem_ways(&[network.clone()]);
    let (_, far, via) = nearest_way(&ways, at(20_100.0, 0.0));
    assert_eq!(via, "Town Network Portal Gem, then Portal to Cragstone");
    assert_eq!(far, single(100.0));
    // Underground, where the character stands is no way out.
    let gems = [network];
    let doors = [way("the door", 50.0)];
    let recalls = [way("Lifestone Recall", 700.0)];
    let here = Bearings {
        me: at(1.0, 0.0),
        in_dungeon: false,
        recalls: &recalls,
        gems: &gems,
        doors: &doors,
    };
    let above = ways_out(&here);
    assert!(above.iter().any(|w| w.at == at(1.0, 0.0)));
    let below = ways_out(&Bearings {
        in_dungeon: true,
        ..here
    });
    assert!(below.iter().all(|w| w.at != at(1.0, 0.0)));
}

fn thing(guid: u32, item_type: u32, value: u32, stack: u32) -> Thing {
    Thing {
        guid,
        wcid: guid,
        name: format!("thing {guid}"),
        item_type,
        valid_locations: 0,
        value,
        burden: 10 * stack,
        stack,
        known: true,
        offered: false,
        barred_full: false,
        barred_empty: false,
        leaving: false,
    }
}

#[test]
fn what_goes_over_a_counter_is_what_the_rules_offer() {
    let mut gem = thing(1, GEM, 900, 3);
    gem.offered = true;
    let kept = thing(2, GEM, 900, 1);
    let mut bag = thing(3, 0x200, 50, 1);
    bag.offered = true;
    bag.barred_full = true;
    let things = [gem, kept, bag];
    let guids = |v: Vec<&Thing>| v.iter().map(|t| t.guid).collect::<Vec<_>>();
    assert_eq!(guids(for_sale(&things, &[])), vec![1, 3]);
    assert_eq!(guids(for_sale(&things, &[3])), vec![1], "a pack with something in it stays");
    let all = salables(&things, &[3]);
    assert_eq!(all, vec![salable(1, GEM, 900, 3)]);
    assert_eq!(loot_burden(&things, &[3]), 30);
    assert_eq!(loot_for_sale(&things), vec![1, 3]);
    let window = |item_types: u32| {
        Some(Window {
            item_types,
            min_value: 0,
            max_value: 0,
        })
    };
    assert_eq!(sale_list(&all, window(GEM)), vec![1]);
    assert!(sale_list(&all, window(ARMOR)).is_empty());
    assert!(sale_list(&all, None).is_empty());
    // Coin is counted by the piece, notes at their worth.
    let money = [thing(4, MONEY, 1, 250), thing(5, PROMISSORY_NOTE, 1_000, 1)];
    assert_eq!(purse(&money), 250);
    assert_eq!(spendable(&money), 1_250);
}

#[test]
fn the_weapon_in_hand_is_not_its_ammunition() {
    let mut arrows = thing(1, 0x100, 1, 100);
    arrows.valid_locations = MISSILE_AMMO;
    let bow = thing(2, 0x100, 500, 1);
    assert_eq!(weapon_in_hand(&[arrows.clone(), bow]), Some(2));
    assert_eq!(weapon_in_hand(&[arrows, thing(3, ARMOR, 1, 1)]), None);
}

#[test]
fn the_next_stop_is_looked_for_from_every_way_out() {
    let town = at(5.0, 5.0);
    let unplaced = next_ways(None, town);
    assert_eq!((unplaced.len(), unplaced[0].at), (1, town));
    assert_eq!(unplaced[0].name, "in town");
}

#[test]
fn a_character_without_a_profile_sells_nothing() {
    assert!(sold_by_profile(true, Some(LootAction::Sell)));
    assert!(!sold_by_profile(false, Some(LootAction::Sell)));
    assert!(!sold_by_profile(true, Some(LootAction::Keep)));
    assert!(!sold_by_profile(true, None));
}
