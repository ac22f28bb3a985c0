use ac_client::logistics::{
    decide, hand_out, line_level, merged_order, quartermaster, share_money, still_shopping,
    GroupMode, Plan, Restock, Stage, Supplies, Transfer,
};
use ac_client::single::Single;

fn single(x: f32) -> Single {
    Single { bits: x.to_bits() }
}

fn mate(name: &str, level: f32) -> Supplies {
    Supplies {
        name: name.into(),
        level: single(level),
        stocked: level >= 0.9,
        free_space: 50,
        ..Supplies::default()
    }
}

const SHOPPING: GroupMode = GroupMode::Restocking(Stage::Shopping);

#[test]
fn a_full_party_keeps_hunting() {
    let cfg = Restock::default();
    let party = [mate("Aldric", 1.0), mate("Bryn", 0.8)];
    assert_eq!(decide(GroupMode::Hunting, &party, &cfg, 0), None);
}

#[test]
fn one_member_running_low_takes_the_whole_party_to_town() {
    let cfg = Restock::default();
    // Bryn is below go_at while everyone else is comfortable.
    let party = [mate("Aldric", 1.0), mate("Bryn", 0.2), mate("Caius", 0.9)];
    let s = decide(GroupMode::Hunting, &party, &cfg, 0).expect("a switch");
    assert_eq!(s.mode, SHOPPING);
    assert!(s.because.contains("Bryn"), "{}", s.because);
}

#[test]
fn the_party_leaves_before_anyone_is_empty() {
    // The point of the early trigger: at the moment the party turns
    // round, its worst-off member still has a third of a load.
    let cfg = Restock::default();
    let party = [mate("Aldric", 0.34)];
    assert!(decide(GroupMode::Hunting, &party, &cfg, 0).is_some());
    assert!(f32::from_bits(party[0].level.bits) > 0.0);
}

#[test]
fn a_full_pack_is_reason_enough() {
    let cfg = Restock::default();
    let mut m = mate("Aldric", 1.0);
    m.pack_full = true;
    let s = decide(GroupMode::Hunting, &[m], &cfg, 0).expect("a switch");
    assert_eq!(s.mode, SHOPPING);
    assert!(s.because.contains("pack is full"), "{}", s.because);
}

#[test]
fn a_member_carrying_all_the_loot_it_means_to_takes_the_party_to_town() {
    // Weight fills before slots do. Counting only slots and supplies,
    // a party hunted on with a member who could take nothing more
    // off a corpse and had free slots to show for it.
    let cfg = Restock::default();
    let mut party = [mate("Aldric", 1.0), mate("Bryn", 1.0)];
    assert_eq!(decide(GroupMode::Hunting, &party, &cfg, 0), None);
    party[1].laden = true;
    let s = decide(GroupMode::Hunting, &party, &cfg, 0).expect("a switch");
    assert_eq!(s.mode, SHOPPING);
    assert!(s.because.contains("Bryn is carrying"), "{}", s.because);
}

#[test]
fn nobody_goes_back_until_everybody_is_ready() {
    let cfg = Restock::default();
    let mut party = [mate("Aldric", 1.0), mate("Bryn", 1.0)];
    party[1].stocked = false;
    assert_eq!(decide(SHOPPING, &party, &cfg, 0), None);
    assert_eq!(still_shopping(&party), vec!["Bryn"]);
    party[1].stocked = true;
    let s = decide(SHOPPING, &party, &cfg, 0).expect("a switch");
    assert_eq!(s.mode, GroupMode::Hunting);
}

#[test]
fn a_party_that_just_shopped_does_not_turn_straight_round() {
    // Coming home needs full_at, leaving needs go_at, so the level
    // that ends a trip cannot also start one.
    let cfg = Restock::default().sane();
    let party = [mate("Aldric", f32::from_bits(cfg.full_at.bits))];
    assert_eq!(
        decide(SHOPPING, &party, &cfg, 0).map(|s| s.mode),
        Some(GroupMode::Hunting)
    );
    assert_eq!(decide(GroupMode::Hunting, &party, &cfg, 0), None);
}

#[test]
fn a_config_with_the_bars_the_wrong_way_round_is_straightened_out() {
    let bad = Restock {
        go_at: single(0.9),
        full_at: single(0.1),
        ..Restock::default()
    };
    let ok = bad.sane();
    assert!(ok.go_at.lt(ok.full_at), "{ok:?}");
}

#[test]
fn nobody_speaking_yet_changes_nothing() {
    let cfg = Restock::default();
    assert_eq!(decide(GroupMode::Hunting, &[], &cfg, 0), None);
    assert_eq!(decide(SHOPPING, &[], &cfg, 0), None);
}

#[test]
fn loot_for_a_counter_sends_the_party_to_town() {
    // A party that read only packs and supplies hunted on while a
    // member carried eight peas about all afternoon. The member
    // judges its own loot by its own rules and says so in a word.
    let cfg = Restock::default();
    let stocked = [mate("+Brynith", 1.0), mate("+Brynlyn", 1.0)];
    assert_eq!(decide(GroupMode::Hunting, &stocked, &cfg, 0), None);
    let mut laden_with_peas = mate("+Brynlyn", 1.0);
    laden_with_peas.sale = true;
    let sw = decide(
        GroupMode::Hunting,
        &[mate("+Brynith", 1.0), laden_with_peas],
        &cfg,
        0,
    )
    .expect("hunted on");
    assert!(
        sw.because
            .contains("+Brynlyn is carrying loot for a counter"),
        "{}",
        sw.because
    );
}

fn purse(name: &str, purse: u32, bill: u32) -> Supplies {
    Supplies {
        name: name.into(),
        purse,
        bill,
        ..Supplies::default()
    }
}

#[test]
fn the_one_who_sold_the_armour_pays_for_the_mages_tapers() {
    let party = [purse("Aldric", 100_000, 5_000), purse("Bryn", 500, 20_000)];
    let moves = share_money(&party);
    assert_eq!(
        moves,
        vec![Transfer {
            from: "Aldric".into(),
            to: "Bryn".into(),
            amount: 19_500,
        }]
    );
}

#[test]
fn a_party_that_can_all_pay_moves_nothing() {
    let party = [purse("Aldric", 10_000, 5_000), purse("Bryn", 9_000, 9_000)];
    assert!(share_money(&party).is_empty());
}

#[test]
fn one_purse_can_cover_two_shortfalls() {
    let party = [
        purse("Aldric", 50_000, 0),
        purse("Bryn", 0, 10_000),
        purse("Caius", 0, 4_000),
    ];
    let moves = share_money(&party);
    assert_eq!(moves.len(), 2);
    assert!(moves.iter().all(|m| m.from == "Aldric"));
    // Largest shortfall first, so the party settles in as few
    // handovers as it can.
    assert_eq!(moves[0].to, "Bryn");
    assert_eq!(moves[0].amount, 10_000);
    assert_eq!(moves[1].to, "Caius");
    assert_eq!(moves[1].amount, 4_000);
}

#[test]
fn two_purses_are_pooled_for_one_shortfall() {
    let party = [
        purse("Aldric", 6_000, 0),
        purse("Bryn", 5_000, 0),
        purse("Caius", 0, 10_000),
    ];
    let moves = share_money(&party);
    assert_eq!(moves.iter().map(|m| m.amount).sum::<u32>(), 10_000);
    assert!(moves.iter().all(|m| m.to == "Caius"));
}

#[test]
fn a_shortfall_nobody_can_cover_is_left_alone() {
    // Not an error: the character buys what it can afford. What it
    // must not do is take money someone else needs.
    let party = [purse("Aldric", 1_000, 0), purse("Bryn", 0, 90_000)];
    let moves = share_money(&party);
    assert_eq!(moves.iter().map(|m| m.amount).sum::<u32>(), 1_000);
}

#[test]
fn nobody_is_asked_to_give_away_money_it_needs_itself() {
    let party = [purse("Aldric", 10_000, 10_000), purse("Bryn", 0, 5_000)];
    assert!(share_money(&party).is_empty());
}

#[test]
fn an_archer_carrying_no_tapers_is_not_out_of_supplies() {
    assert_eq!(line_level(0, 0), single(1.0));
    assert_eq!(line_level(50, 100), single(0.5));
    // More than asked for is still just full.
    assert_eq!(line_level(400, 100), single(1.0));
}

// ---- the quartermaster run ------------------------------------

fn qm_cfg() -> Restock {
    Restock {
        plan: Plan::Quartermaster,
        ..Restock::default()
    }
}

#[test]
fn a_quartermaster_run_starts_by_loading_the_runner() {
    let mut party = [mate("Aldric", 1.0), mate("Bryn", 0.2)];
    party[0].free_space = 90;
    party[1].free_space = 10;
    let s = decide(GroupMode::Hunting, &party, &qm_cfg(), 0).expect("a switch");
    assert_eq!(s.mode, GroupMode::Restocking(Stage::HandOver));
    // The roomiest pack carries for the party.
    assert_eq!(
        quartermaster(&party).map(|m| m.name.as_str()),
        Some("Aldric")
    );
}

#[test]
fn a_party_with_no_room_to_spare_walks_to_town_instead() {
    // Sending a runner that cannot carry the order home would
    // strand the party, so it falls back to everyone going.
    let mut party = [mate("Aldric", 1.0), mate("Bryn", 0.2)];
    party[0].free_space = 3;
    party[1].free_space = 2;
    let s = decide(GroupMode::Hunting, &party, &qm_cfg(), 0).expect("a switch");
    assert_eq!(s.mode, SHOPPING);
}

#[test]
fn a_character_on_its_own_has_nobody_to_send() {
    let mut party = [mate("Aldric", 0.1)];
    party[0].free_space = 90;
    let s = decide(GroupMode::Hunting, &party, &qm_cfg(), 0).expect("a switch");
    assert_eq!(s.mode, SHOPPING);
}

#[test]
fn the_runner_leaves_once_everyone_else_has_loaded_it() {
    let mut party = [mate("Aldric", 1.0), mate("Bryn", 0.2)];
    party[0].free_space = 90;
    party[1].free_space = 10;
    let at = GroupMode::Restocking(Stage::HandOver);
    // Bryn has not handed anything over yet.
    assert_eq!(decide(at, &party, &qm_cfg(), 0), None);
    party[1].handed_over = true;
    // The runner does not wait on itself.
    let s = decide(at, &party, &qm_cfg(), 0).expect("a switch");
    assert_eq!(s.mode, GroupMode::Restocking(Stage::Away));
    assert!(s.because.contains("Aldric"), "{}", s.because);
}

#[test]
fn the_party_waits_at_the_hunting_ground_until_the_runner_is_done() {
    let mut party = [mate("Aldric", 0.5), mate("Bryn", 0.2)];
    party[0].free_space = 90;
    party[1].free_space = 10;
    party[0].stocked = false;
    party[1].stocked = false;
    let at = GroupMode::Restocking(Stage::Away);
    assert_eq!(decide(at, &party, &qm_cfg(), 0), None);
    // Only the runner's word matters here: the others cannot be
    // stocked until it hands their goods over.
    party[0].stocked = true;
    let s = decide(at, &party, &qm_cfg(), 0).expect("a switch");
    assert_eq!(s.mode, GroupMode::Restocking(Stage::HandOut));
}

#[test]
fn hunting_resumes_when_the_last_order_is_handed_out() {
    let mut party = [mate("Aldric", 1.0), mate("Bryn", 0.2)];
    party[0].free_space = 90;
    party[0].stocked = true;
    party[1].stocked = false;
    let at = GroupMode::Restocking(Stage::HandOut);
    // The runner still has goods in its pack: it is mid-handout.
    party[0].holding_orders = true;
    assert_eq!(decide(at, &party, &qm_cfg(), 0), None);
    party[0].holding_orders = false;
    party[1].stocked = true;
    let s = decide(at, &party, &qm_cfg(), 0).expect("a switch");
    assert_eq!(s.mode, GroupMode::Hunting);
}

#[test]
fn one_trip_that_was_not_enough_becomes_a_second() {
    // The runner's pack is empty and Bryn is still short, so one
    // trip did not cover the party and it goes back for more.
    let mut party = [mate("Aldric", 1.0), mate("Bryn", 0.2)];
    party[0].free_space = 90;
    party[0].stocked = true;
    party[1].stocked = false;
    party[0].holding_orders = false;
    let at = GroupMode::Restocking(Stage::HandOut);
    let s = decide(at, &party, &qm_cfg(), 0).expect("a switch");
    assert_eq!(s.mode, GroupMode::Restocking(Stage::HandOver));
    assert!(s.because.contains("not enough"), "{}", s.because);
}

#[test]
fn the_party_stops_going_back_eventually() {
    // Some things simply cannot be bought: no vendor has them, or
    // the money has run out. After the allowed rounds the party
    // settles for what it has rather than shuttling for ever.
    let cfg = Restock {
        max_rounds: 3,
        ..qm_cfg()
    };
    let mut party = [mate("Aldric", 1.0), mate("Bryn", 0.2)];
    party[0].free_space = 90;
    party[0].stocked = true;
    party[1].stocked = false;
    let at = GroupMode::Restocking(Stage::HandOut);
    // Rounds 0 and 1 go back for more.
    for round in 0..2 {
        let s = decide(at, &party, &cfg, round).expect("a switch");
        assert_eq!(
            s.mode,
            GroupMode::Restocking(Stage::HandOver),
            "round {round}"
        );
    }
    // The last one gives up and says who is still short.
    let s = decide(at, &party, &cfg, 2).expect("a switch");
    assert_eq!(s.mode, GroupMode::Hunting);
    assert!(s.because.contains("Bryn"), "{}", s.because);
    assert!(s.because.contains("3 trips"), "{}", s.because);
}

#[test]
fn every_session_picks_the_same_runner_from_the_same_roster() {
    // Equal packs: the tie has to break the same way everywhere, or
    // two characters both set off for town.
    let mut party = [mate("Bryn", 1.0), mate("Aldric", 1.0)];
    party[0].free_space = 40;
    party[1].free_space = 40;
    assert_eq!(
        quartermaster(&party).map(|m| m.name.as_str()),
        Some("Aldric")
    );
    party.reverse();
    assert_eq!(
        quartermaster(&party).map(|m| m.name.as_str()),
        Some("Aldric")
    );
}

// ---- the shopping list ----------------------------------------

fn orders(name: &str, order: &[(&str, u32)]) -> Supplies {
    Supplies {
        name: name.into(),
        order: order.iter().map(|(n, c)| (n.to_string(), *c)).collect(),
        ..Supplies::default()
    }
}

#[test]
fn one_trip_to_the_archmage_buys_every_mages_tapers() {
    let party = [
        orders("Aldric", &[("Prismatic Taper", 300), ("Lead Scarab", 50)]),
        orders("Bryn", &[("Prismatic Taper", 200)]),
        orders("Caius", &[("Arrowhead", 250)]),
    ];
    assert_eq!(
        merged_order(&party),
        vec![
            ("Arrowhead".to_string(), 250),
            ("Lead Scarab".to_string(), 50),
            ("Prismatic Taper".to_string(), 500),
        ]
    );
}

#[test]
fn an_empty_order_line_is_ignored() {
    let party = [orders("Aldric", &[("", 5), ("Prismatic Taper", 0)])];
    assert!(merged_order(&party).is_empty());
}

#[test]
fn a_full_run_gives_everyone_what_they_asked_for() {
    let party = [
        orders("Aldric", &[("Prismatic Taper", 300)]),
        orders("Bryn", &[("Prismatic Taper", 200)]),
    ];
    let out = hand_out(&party, "Prismatic Taper", 500);
    assert_eq!(
        out,
        vec![("Aldric".to_string(), 300), ("Bryn".to_string(), 200)]
    );
}

#[test]
fn a_short_run_is_shared_out_in_proportion() {
    // The vendor only had half of what the party wanted.
    let party = [
        orders("Aldric", &[("Prismatic Taper", 300)]),
        orders("Bryn", &[("Prismatic Taper", 200)]),
    ];
    let out = hand_out(&party, "Prismatic Taper", 250);
    assert_eq!(
        out,
        vec![("Aldric".to_string(), 150), ("Bryn".to_string(), 100)]
    );
}

#[test]
fn nothing_brought_back_is_handed_out_twice() {
    // Whatever the split, the party cannot be given more than the
    // runner is carrying, and nobody gets more than they asked for.
    let party = [
        orders("Aldric", &[("Prismatic Taper", 7)]),
        orders("Bryn", &[("Prismatic Taper", 5)]),
        orders("Caius", &[("Prismatic Taper", 3)]),
    ];
    for brought in 0..=20u32 {
        let out = hand_out(&party, "Prismatic Taper", brought);
        let given: u32 = out.iter().map(|(_, c)| c).sum();
        assert_eq!(given, brought.min(15), "brought {brought}");
        for (who, got) in &out {
            let asked = party
                .iter()
                .find(|m| &m.name == who)
                .and_then(|m| m.order.first())
                .map(|(_, c)| *c)
                .unwrap();
            assert!(*got <= asked, "{who} got {got} of {asked}");
        }
    }
}

#[test]
fn nobody_is_handed_something_they_did_not_ask_for() {
    let party = [orders("Aldric", &[("Prismatic Taper", 100)])];
    assert!(hand_out(&party, "Lead Scarab", 50).is_empty());
}
#[test]
fn a_character_that_cannot_afford_the_rest_stops_shopping() {
    // Standing at the counter with an empty purse does not make it
    // less short. It goes back to hunting and earns the rest, which
    // is the only thing that will actually help.
    let cfg = qm_cfg();
    let mut party = [mate("Aldric", 0.2), mate("Bryn", 1.0)];
    party[0].stocked = false;
    party[1].stocked = true;
    let at = SHOPPING;
    assert_eq!(decide(at, &party, &cfg, 0), None, "still hoping");
    party[0].broke = true;
    let s = decide(at, &party, &cfg, 0).expect("a switch");
    assert_eq!(s.mode, GroupMode::Hunting);
    assert!(still_shopping(&party).is_empty());
}
#[test]
fn a_trip_that_came_back_with_nothing_ends_the_shopping() {
    // The loop this exists for: a character that cannot buy what it
    // needs walked between counters for ever, because being short
    // kept the party shopping and shopping never made it less short.
    let cfg = qm_cfg();
    let mut party = [mate("Aldric", 0.2)];
    party[0].stocked = false;
    // Still hopeful: it has money and has not tried yet.
    party[0].purse = 50_000;
    assert_eq!(decide(SHOPPING, &party, &cfg, 0), None);
    // Tried, got nothing: that is the answer, and it goes hunting.
    party[0].broke = true;
    assert_eq!(
        decide(SHOPPING, &party, &cfg, 0).map(|s| s.mode),
        Some(GroupMode::Hunting)
    );
}

#[test]
fn blank_lines_never_overflow_an_order() {
    let party = [
        orders("Aldric", &[(" ", u32::MAX), ("Lead Scarab", 5)]),
        orders("Bryn", &[(" ", u32::MAX), ("Lead Scarab", 7)]),
    ];
    assert_eq!(merged_order(&party), vec![("Lead Scarab".to_string(), 12)]);
}

#[test]
fn no_giver_hands_the_same_taker_money_twice() {
    let party = [
        purse("Aldric", 6_000, 0),
        purse("Bryn", 5_000, 0),
        purse("Caius", 0, 7_000),
        purse("Dara", 0, 3_000),
    ];
    let moves = share_money(&party);
    let told: Vec<(&str, &str, u32)> = moves
        .iter()
        .map(|m| (m.from.as_str(), m.to.as_str(), m.amount))
        .collect();
    assert_eq!(
        told,
        [
            ("Aldric", "Caius", 6_000),
            ("Bryn", "Caius", 1_000),
            ("Bryn", "Dara", 3_000),
        ]
    );
}
