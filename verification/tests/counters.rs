use ac_client::counters::{Errand, Forecast, Shop, Want, Ware};
use ac_client::single::Single;
use ac_client::text::{a_few, contains_fold};
use ac_client::vendors::{better_counter, Choice};
use ac_client::wares::{
    ammo_stock, worth_stocking, Need, NeedKind, Salable, ARROW, ATLATL, BOLT,
};

const ARMOR: u32 = 0x2;
const JEWELRY: u32 = 0x8;
const MISC: u32 = 0x80;
const GEM: u32 = 0x800;
const SPELL_COMPONENTS: u32 = 0x1000;

fn single(x: f32) -> Single {
    Single { bits: x.to_bits() }
}

fn vendor_rings(within: Option<f32>) -> Vec<f32> {
    ac_client::vendors::vendor_rings(within.map(single))
        .iter()
        .map(|r| f32::from_bits(r.bits))
        .collect()
}

/// A ware, charged at twice its value.
fn ware(wcid: u32, name: &str, value: u32) -> Ware {
    Ware {
        wcid,
        name: name.into(),
        value,
        charge: 2 * value,
    }
}

fn shop(name: &str, sells: Vec<Ware>) -> Shop {
    Shop {
        name: name.into(),
        sells,
        buys: GEM,
        min_value: 10,
        max_value: 0,
    }
}

/// A forecast at a shop that pays half of what a thing is worth.
fn forecast(shop: &Shop, wants: &[Want], purse: u32, salables: &[Salable]) -> Forecast {
    let paid: Vec<Option<u32>> = salables.iter().map(|it| Some(it.each() / 2)).collect();
    ac_client::counters::forecast(shop, wants, purse, salables, &paid)
}

#[test]
fn a_stack_worth_more_than_the_counter_allows_is_sold_in_pieces() {
    // A hundred Pyreal Peas: fifty thousand each and five million
    // the stack, and the server reckons a stack's value as the lot.
    // A counter that will not look at anything over a million
    // refuses all hundred -- so it takes twenty at a time.
    let peas = Salable {
        guid: 1,
        item_type: SPELL_COMPONENTS,
        value: 5_000_000,
        stack: 100,
    };
    assert_eq!(peas.each(), 50_000);
    assert_eq!(peas.at_once(1_000_000), 20);
    assert!(
        peas.taken_by(SPELL_COMPONENTS, 0, 1_000_000),
        "in pieces, but taken"
    );

    // A counter with no ceiling takes the lot in one go.
    assert_eq!(peas.at_once(0), 100);

    // One too dear even singly is not taken at all, and saying so
    // is better than splitting a stack down to nothing.
    let jewel = Salable {
        guid: 2,
        item_type: JEWELRY,
        value: 4_000_000,
        stack: 1,
    };
    assert_eq!(jewel.at_once(1_000_000), 0);
    assert!(!jewel.taken_by(JEWELRY, 0, 1_000_000));

    // And the counter's floor is about one of them, not the pile:
    // a stack of cheap things is not made sellable by being big.
    let chaff = Salable {
        guid: 3,
        item_type: MISC,
        value: 10_000,
        stack: 1_000,
    };
    assert_eq!(chaff.each(), 10);
    assert!(
        !chaff.taken_by(MISC, 100, 0),
        "ten is under the floor"
    );
}

fn need(kind: NeedKind, want: u32) -> Need {
    Need {
        name: "x".into(),
        want,
        have: 0,
        keep: want,
        urgent: true,
        buyable: true,
        from: None,
        kind,
    }
}

#[test]
fn a_want_that_names_its_counter_is_only_filled_there() {
    // Fletching supplies come in levels and elements that one bowyer
    // carries and the next does not, so a player who says where a
    // line comes from means it.
    let mut named = need(NeedKind::Named("Acid Arrowhead".into()), 500);
    named.from = Some("Thimrin Woodsetter".into());
    assert!(named.may_buy_at("Thimrin Woodsetter"));
    assert!(
        named.may_buy_at("thimrin woodsetter"),
        "however it is typed"
    );
    assert!(!named.may_buy_at("Scildith Dyrson the Bowyer"));

    // A line that names nobody is bought wherever it is sold, which
    // is every line a character has unless it says otherwise.
    let anywhere = need(NeedKind::Component(691), 1000);
    assert!(anywhere.may_buy_at("Anyone At All"));
}

#[test]
fn a_long_list_is_cut_short() {
    assert_eq!(a_few(&[]), "nothing");
    assert_eq!(a_few(&["Myrrh"]), "Myrrh");
    assert_eq!(a_few(&["a", "b", "c", "d"]), "a, b, c, d");
    assert_eq!(a_few(&["a", "b", "c", "d", "e"]), "a, b, c, d and 1 more");
}

#[test]
fn case_folds_without_allocating() {
    assert!(contains_fold("Prismatic Taper", "taper"));
    assert!(contains_fold("PRISMATIC TAPER", "prismatic"));
    assert!(!contains_fold("Lead Scarab", "taper"));
    assert!(!contains_fold("Tap", "taper"));
    assert!(!contains_fold("anything", ""));
}

#[test]
fn the_counter_that_pays_best_wins_when_neither_has_the_order() {
    // Around Cragstone the Scriveners are eighty metres away and pay
    // half; the Arcanum Broker is three hundred metres further on
    // and pays 0.95. Neither stocks what a hunting character came to
    // buy, so the order is a tie, and what they pay settles it.
    let look = |takings: u32, stocks: usize| Forecast {
        takings,
        stocks: vec!["something".into(); stocks],
        ..Forecast::default()
    };
    let near = look(500, 0);
    let far = look(950, 0);
    assert_eq!(
        better_counter(Errand::Buy, (&far, single(380.0)), (&near, single(80.0))),
        Choice::First,
        "the broker is worth the extra three hundred metres"
    );

    // But only when the order is a tie: a counter that has what the
    // character came for still beats a richer one that does not.
    let stocked_but_poor = look(0, 2);
    assert_eq!(
        better_counter(Errand::Buy, (&stocked_but_poor, single(380.0)), (&far, single(80.0))),
        Choice::First,
        "what it came to buy comes first"
    );
}

#[test]
fn distance_only_settles_what_pay_and_stock_leave_even() {
    let same = Forecast {
        takings: 100,
        ..Forecast::default()
    };
    assert_eq!(
        better_counter(Errand::Buy, (&same, single(50.0)), (&same, single(900.0))),
        Choice::First,
        "all else equal, the nearer one"
    );
}

#[test]
fn a_trip_is_judged_before_it_is_walked() {
    let mut tapers = need(NeedKind::Component(691), 100);
    tapers.name = "Prismatic Taper".into();
    let mut scarabs = need(NeedKind::Component(690), 20);
    scarabs.name = "Lead Scarab".into();
    let needs = [tapers, scarabs];
    let wants: Vec<Want> = needs
        .iter()
        .map(|need| Want {
            need,
            needle: String::new(),
        })
        .collect();

    let mage = shop(
        "Archmage",
        vec![
            ware(691, "Prismatic Taper", 5),
            ware(690, "Lead Scarab", 30),
        ],
    );
    let smith = shop("Blacksmith", vec![ware(20630, "Trade Note", 250)]);

    // Money in hand, everything on the shelf: the whole order in one
    // stop, and the trip is worth walking.
    let rich = forecast(&mage, &wants, 10_000, &[]);
    assert_eq!(rich.bill, 100 * 10 + 20 * 60);
    assert_eq!(rich.cheapest, 10);
    assert!(rich.missing.is_empty());
    assert!(rich.covers_it());
    assert!(rich.worth_going());

    // Enough for some of it is still worth walking: a mage that can
    // afford half its tapers is a mage that can keep casting.
    let thin = forecast(&mage, &wants, 50, &[]);
    assert!(!thin.covers_it());
    assert!(thin.worth_going());

    // Not a copper, and nothing to sell: the trip buys nothing and
    // is not made.
    let broke = forecast(&mage, &wants, 0, &[]);
    assert_eq!(broke.funds(), 0);
    assert!(!broke.worth_going());

    // Unless there is something to sell, which pays for the rest.
    //
    // Three gems, twelve hundred the lot: a stack's `value` is the
    // whole stack's, which is how the server reckons it and what a
    // counter's limits are measured against. Four hundred each, the
    // shop pays half, so six hundred for the three.
    let loot = [salable(9, GEM, 1_200, 3)];
    let selling = forecast(&mage, &wants, 0, &loot);
    assert_eq!(selling.takings, 200 * 3);
    assert_eq!(selling.selling, 1);
    assert!(selling.worth_going());
    // What it will not buy does not count towards the trip.
    let armour = [salable(9, ARMOR, 400, 1)];
    assert_eq!(forecast(&mage, &wants, 0, &armour).takings, 0);
    // Nor does what is beneath its notice -- and "beneath" is
    // about one of them, not the pile.
    let trinket = [salable(9, GEM, 5, 1)];
    assert_eq!(forecast(&mage, &wants, 0, &trinket).takings, 0);

    // A counter that stocks none of it is no help however rich the
    // character is.
    let wrong = forecast(&smith, &wants, 100_000, &[]);
    assert_eq!(wrong.cheapest, 0);
    assert_eq!(wrong.missing.len(), 2);
    assert!(!wrong.covers_it());
    assert!(!wrong.worth_going());
}

#[test]
fn the_search_widens_rather_than_crossing_the_world() {
    // Ranking on what a shop stocks alone would send a character
    // twenty-five kilometres to a counter with one more line on the
    // shelf. The rings mean a good enough shop in this town wins.
    let r = vendor_rings(None);
    assert_eq!(r.first().copied(), Some(600.0), "the town first");
    assert!(r.windows(2).all(|w| w[0] < w[1]), "{r:?} does not widen");
    assert_eq!(r.last().copied(), Some(f32::INFINITY), "and then anywhere");
}

#[test]
fn a_capped_search_never_looks_past_the_cap() {
    // The next stop of a run stays in the same town.
    let r = vendor_rings(Some(500.0));
    assert_eq!(r, vec![500.0]);
    assert!(r.iter().all(|x| *x <= 500.0));
    // A cap between rings keeps the ones below it.
    let mid = vendor_rings(Some(1_000.0));
    assert_eq!(mid, vec![600.0, 1_000.0]);
}

#[test]
fn there_is_always_a_last_ring_to_fall_back_on() {
    // Whatever the cap, the search ends somewhere rather than
    // leaving the character with nowhere to go.
    for cap in [1.0f32, 600.0, 3_000.0, 15_000.0, 100_000.0] {
        let r = vendor_rings(Some(cap));
        assert!(!r.is_empty(), "cap {cap}");
        assert_eq!(r.last().copied(), Some(cap));
    }
}

#[test]
fn a_healing_kit_is_not_bought_for_someone_who_cannot_use_one() {
    // Untrained Healing: a kit restores next to nothing, so it is
    // not worth the money or the trip to a vendor.
    assert!(!worth_stocking("Healing Kit", false));
    assert!(!worth_stocking("Excellent Healing Kit", false));
    // Trained, it is worth having again.
    assert!(worth_stocking("Healing Kit", true));
    // Everything else is judged on its own, either way.
    assert!(worth_stocking("Prismatic Taper", false));
    assert!(worth_stocking("Mana Stone", false));
}

#[test]
fn ammunition_is_the_plain_kind() {
    assert!(ammo_stock("Arrow", ARROW));
    assert!(ammo_stock("arrow ", ARROW));
    assert!(!ammo_stock("Fire Arrow", ARROW));
    assert!(!ammo_stock("Arrow", BOLT));
    assert!(ammo_stock("Quarrel", BOLT));
    assert!(ammo_stock("Atlatl Dart", ATLATL));
}

fn salable(guid: u32, item_type: u32, value: u32, stack: u32) -> Salable {
    Salable {
        guid,
        item_type,
        value,
        stack,
    }
}
