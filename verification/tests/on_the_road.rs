use ac_client::clock::SECOND;
use ac_client::config::{restocks_as_a_party, Team};
use ac_client::logistics::Restock;
use ac_client::run::VENDOR_REACH;
use ac_client::state::{
    on_opening, on_the_way, road_under_way, OnOpening, OnTheWay, BUSY_ASKS, BUSY_REASK,
    VENDOR_OPEN_TIMEOUT,
};

#[test]
fn a_character_with_nobody_to_restock_with_goes_to_town_on_its_own() {
    // Blargerton: team rules on, restocking together on, no party.
    // The party's mode decided his trips, a party of one never left
    // for weight, and he hunted on laden with every body left full.
    let team = Team {
        enabled: true,
        restock: Restock {
            together: true,
            ..Default::default()
        },
    };
    assert!(!restocks_as_a_party(&team, 0), "alone is alone");
    assert!(restocks_as_a_party(&team, 1));
    // Either setting off, it is alone whoever else is about.
    let apart = Team {
        restock: Restock {
            together: false,
            ..Default::default()
        },
        ..team.clone()
    };
    assert!(!restocks_as_a_party(&apart, 3));
    let off = Team {
        enabled: false,
        ..team
    };
    assert!(!restocks_as_a_party(&off, 3));
}

/// Whether a run standing `away` metres from its counter is there.
fn there(away: f32) -> bool {
    away <= f32::from_bits(VENDOR_REACH)
}

#[test]
fn a_walk_to_a_counter_broken_off_by_a_corpse_is_walked_on() {
    // +Verity, carrying as much as she meant to, set off for Shopkeeper
    // Renald the Elder 250 m away. A second later the looting walked
    // her to a fresh corpse, which ends a journey, and the run found no
    // journey under way 224 m short: "could not get to", sold nothing.
    assert_eq!(
        on_the_way(there(224.0), true, false, false),
        OnTheWay::WalkOn
    );
    // Not while what broke it off still has her: a fight on the way.
    assert_eq!(on_the_way(there(224.0), true, true, false), OnTheWay::Wait);
    // A journey that ended by itself short of the counter -- it gave
    // up, or arrived somewhere else -- still could not get there.
    assert_eq!(
        on_the_way(there(224.0), false, false, false),
        OnTheWay::Short
    );
    assert_eq!(
        on_the_way(there(224.0), false, true, false),
        OnTheWay::Short
    );
    // Near enough, she goes up to the counter however it ended.
    for (broken_off, busy) in [(false, false), (true, false), (true, true)] {
        assert_eq!(
            on_the_way(there(f32::from_bits(VENDOR_REACH)), broken_off, busy, false),
            OnTheWay::There
        );
    }
}

#[test]
fn a_walk_broken_off_again_as_soon_as_it_is_planned_waits_before_the_next_plan() {
    // Something that ends the walk to the counter the moment it is
    // planned -- a follower pulled back to its leader each time it
    // closed to the following distance -- had it planned again every
    // tick or two for the run's four minutes, a route search each time.
    assert_eq!(on_the_way(there(224.0), true, false, true), OnTheWay::Wait);
    // Once the moment is up it is planned again.
    assert_eq!(
        on_the_way(there(224.0), true, false, false),
        OnTheWay::WalkOn
    );
    // Neither giving up nor going up to the counter waits on it.
    assert_eq!(
        on_the_way(there(224.0), false, false, true),
        OnTheWay::Short
    );
    assert_eq!(
        on_the_way(there(f32::from_bits(VENDOR_REACH)), true, false, true),
        OnTheWay::There
    );
}

#[test]
fn a_road_is_under_way_unless_it_is_a_walk_about_the_ground() {
    // No journey, nothing remembered: not on a road.
    assert!(!road_under_way(None, None));
    // A journey to somewhere else, or one put down for a fight.
    assert!(road_under_way(Some(false), None));
    assert!(road_under_way(None, Some(false)));
    // A roam, a patrol: about the ground, so never a road.
    assert!(!road_under_way(Some(true), None));
    assert!(!road_under_way(None, Some(true)));
}

#[test]
fn a_use_turned_away_for_our_own_cast_is_sent_over_not_given_up() {
    let (open, shut) = (true, false);
    let (flying, landed) = (true, false);
    let soon = SECOND;
    let long = VENDOR_OPEN_TIMEOUT + SECOND;
    // An open window ends the wait whatever else is going on.
    assert_eq!(on_opening(open, Some(soon), flying, 0, long, 2), OnOpening::Opened);
    // Turned away as busy: wait for our own cast, then a cast's
    // length more (the counter's UseDone frees the slot early), then
    // ask over -- and the retry is not spent, however long it took.
    assert_eq!(on_opening(shut, Some(soon), flying, 0, soon, 1), OnOpening::Wait);
    assert_eq!(on_opening(shut, Some(soon), landed, 0, soon, 1), OnOpening::Wait);
    assert_eq!(on_opening(shut, Some(soon), flying, 0, long, 1), OnOpening::Wait);
    assert_eq!(
        on_opening(shut, Some(BUSY_REASK), landed, 0, long, 1),
        OnOpening::AskOver
    );
    assert_eq!(
        on_opening(shut, Some(BUSY_REASK), landed, 0, long, 2),
        OnOpening::AskOver
    );
    // A counter that keeps saying busy with nothing of ours in the
    // air is taken at its word: the ordinary silence rules apply.
    assert_eq!(
        on_opening(shut, Some(BUSY_REASK), landed, BUSY_ASKS, soon, 1),
        OnOpening::Wait
    );
    assert_eq!(
        on_opening(shut, Some(BUSY_REASK), landed, BUSY_ASKS, long, 1),
        OnOpening::AskAgain
    );
    assert_eq!(
        on_opening(shut, Some(BUSY_REASK), landed, BUSY_ASKS, long, 2),
        OnOpening::GiveUp
    );
    // Silence: one more ask, then the counter is given up.
    assert_eq!(on_opening(shut, None, landed, 0, soon, 1), OnOpening::Wait);
    assert_eq!(on_opening(shut, None, landed, 0, long, 1), OnOpening::AskAgain);
    assert_eq!(on_opening(shut, None, landed, 0, long, 2), OnOpening::GiveUp);
}
