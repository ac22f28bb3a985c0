use ac_client::clock::{Moment, SECOND};
use ac_client::config::{quiet_before_move, Growth, Tactic, PATROL_AFTER};
use ac_client::hunt::{
    area_allows, area_allows_guid, autoplay_keep_to_area, entrance, inside, patrol_point, visited,
    walked_back, way_in, Foe, HuntArea, Keep, KeepLook, Portal, Shape,
};
use ac_client::hunting::{
    autoplay_watch_the_ground, grow_hunt, grow_travel, grow_travel_on, ground_found,
    ground_planned, hunt_roamed, hunt_traveled_on, hunt_walked_on, hunting_ground,
    looked_about_area, on_its_way, party_ground, road_planned, stepped_outside, Body, Found,
    HuntLook, HuntNext, Legs, Where, ROAMS, SKIP_GROUND_FOR,
};
use ac_client::orders::{Doing, Order};
use ac_client::place::{Point, Spot};
use ac_client::setting_out::RETRY_AFTER;
use ac_client::single::Single;
use ac_client::state::{Ground, Phase, Run, State, WALK_ON_EVERY};

const NOW: Moment = 100_000 * SECOND;
const HOLTBURG: u32 = 0xA9B4_0019;

fn single(x: f32) -> Single {
    Single { bits: x.to_bits() }
}

fn at(x: f32, y: f32) -> Spot {
    Spot {
        x: single(x),
        y: single(y),
    }
}

fn point(x: f32, y: f32, z: f32) -> Point {
    Point {
        x: single(x),
        y: single(y),
        z: single(z),
    }
}

fn me() -> Spot {
    at(32_532.0, 34_567.0)
}

fn spots(points: &[[f32; 2]]) -> Vec<Spot> {
    points.iter().map(|p| at(p[0], p[1])).collect()
}

fn outline(points: &[[f32; 2]]) -> HuntArea {
    HuntArea {
        name: "graveyard".into(),
        shape: Shape::Outline {
            points: spots(points),
        },
    }
}

fn about_me() -> HuntArea {
    let (x, y) = (32_532.0, 34_567.0);
    outline(&[
        [x - 40.0, y - 5.0],
        [x + 40.0, y - 5.0],
        [x + 40.0, y + 60.0],
        [x - 40.0, y + 60.0],
    ])
}

fn ground(landblock: u32, at: Spot) -> Ground {
    Ground {
        landblock,
        at,
        name: "Drudge".into(),
    }
}

fn headings() -> Vec<Spot> {
    vec![at(1.0, 0.0), at(-0.5, 0.8), at(-0.5, -0.8)]
}

fn look<'a>(headings: &'a [Spot]) -> HuntLook<'a> {
    HuntLook {
        me: Some(me()),
        cell: HOLTBURG,
        traveling: false,
        broken_off: false,
        busy: false,
        level: 20,
        area: None,
        follows: false,
        stragglers: false,
        tactic: Tactic::Patrol,
        idle: true,
        headings,
        origin: at(32_448.0, 34_560.0),
        pinned: None,
        party: None,
    }
}

#[test]
fn the_way_into_an_outline_is_inside_it() {
    let square = spots(&[[0.0, 0.0], [10.0, 0.0], [10.0, 10.0], [0.0, 10.0]]);
    assert_eq!(way_in(&square), at(5.0, 5.0));
    // A thin crescent-like L whose middle falls outside it.
    let l = spots(&[
        [0.0, 0.0],
        [100.0, 0.0],
        [100.0, 10.0],
        [10.0, 10.0],
        [10.0, 100.0],
        [0.0, 100.0],
    ]);
    assert!(inside(way_in(&l), &l), "{:?}", way_in(&l));
    // Patrolling keeps inside, whichever corner it heads for.
    for n in 0..12 {
        assert!(inside(patrol_point(&l, n), &l), "{n}");
        assert!(inside(patrol_point(&square, n), &square), "{n}");
    }
}

#[test]
fn the_holtburg_dungeon_is_entered_by_its_portal() {
    let from = at(32600.0, 34690.0);
    let portal = |name: &str, to_cell: u32, x: f32, works: bool, outdoors: bool| Portal {
        name: name.into(),
        works,
        outdoors,
        to_cell,
        mouth: at(x, 34_690.0),
    };
    let portals = [
        portal("Far Side", 0x01F6_0100, 40_000.0, true, true),
        portal("Shut", 0x01F6_0100, 32_601.0, false, true),
        portal("Inner", 0x01F6_0100, 32_601.0, true, false),
        portal("Glenden Wood Dungeon", 0x01E4_0100, 32_601.0, true, true),
        portal("Holtburg Dungeon", 0x01F6_0289, 32_700.0, true, true),
    ];
    let p = entrance(&portals, 0x01F6_0000, from).expect("a portal leads into it");
    assert_eq!(p.name, "Holtburg Dungeon");
    assert_eq!(p.to_cell & 0xFFFF_0000, 0x01F6_0000);
    // A landblock nothing leads into.
    assert!(entrance(&portals, 0xFE00_0000, from).is_none());
}

#[test]
fn an_outline_holds_what_is_inside_it_even_round_a_corner() {
    // An L: a square with its top right quarter cut out.
    let l = outline(&[
        [0.0, 0.0],
        [100.0, 0.0],
        [100.0, 50.0],
        [50.0, 50.0],
        [50.0, 100.0],
        [0.0, 100.0],
    ]);
    let outdoors = 0xA9B4_0024;
    assert!(l.contains(point(25.0, 75.0, 60.0), outdoors, false));
    assert!(l.contains(point(75.0, 25.0, 60.0), outdoors, false));
    // The cut-out corner is outside, and so is past the edges.
    assert!(!l.contains(point(75.0, 75.0, 60.0), outdoors, false));
    assert!(!l.contains(point(-1.0, 50.0, 60.0), outdoors, false));
    // A building's room inside the outline is inside; a dungeon under the same
    // spot is not.
    assert!(l.contains(point(25.0, 25.0, 66.0), 0xA9B4_0117, false));
    assert!(!l.contains(point(25.0, 25.0, -20.0), 0xA9B4_0117, true));
    // Two corners enclose nothing.
    assert!(!outline(&[[0.0, 0.0], [10.0, 10.0]]).usable());
    assert!(l.usable());
}

#[test]
fn a_dungeon_is_all_its_rooms_or_the_ones_chosen() {
    let dungeon = |rooms: Vec<u32>| HuntArea {
        name: "Holtburg Dungeon".into(),
        shape: Shape::Dungeon {
            landblock: 0x01F6_0000,
            rooms,
        },
    };
    let whole = dungeon(vec![]);
    let here = point(0.0, 0.0, 0.0);
    assert!(whole.contains(here, 0x01F6_012F, true));
    assert!(whole.contains(here, 0x01F6_0289, true));
    // Another dungeon, and the landblock's own outdoor numbering.
    assert!(!whole.contains(here, 0x01F7_012F, true));
    assert!(!whole.contains(here, 0x01F6_0001, false));
    let wing = dungeon(vec![0x01F6_012F, 0x01F6_0134]);
    assert!(wing.contains(here, 0x01F6_012F, true));
    assert!(!wing.contains(here, 0x01F6_0289, true));
    assert_eq!(wing.describe(), "dungeon 0x01f6, 2 rooms");
    assert_eq!(whole.describe(), "dungeon 0x01f6, all of it");
}

#[test]
fn a_quiet_ground_is_read_off_the_world_and_not_off_the_status_line() {
    let mut st = State::default();
    let mut bodies = vec![];
    let mut watch = |st: &mut State, fight: bool, now: Moment| {
        autoplay_watch_the_ground(st, &mut bodies, &vec![], &vec![], SECOND, fight, now);
    };
    // Nothing about: the clock starts.
    watch(&mut st, false, NOW);
    assert_eq!(st.quiet_since, Some(NOW));
    // And keeps running through everything the character does meanwhile.
    watch(&mut st, false, NOW + 5 * SECOND);
    assert_eq!(st.quiet_since, Some(NOW), "a corpse put the clock back to nothing");
    // Something worth fighting inside the radius stops it.
    watch(&mut st, true, NOW + 6 * SECOND);
    assert_eq!(st.quiet_since, None);
    // A dead one is no fight, and the clock starts again from there.
    watch(&mut st, false, NOW + 7 * SECOND);
    assert_eq!(st.quiet_since, Some(NOW + 7 * SECOND));
}

#[test]
fn a_body_is_noted_when_it_appears_and_not_when_the_looting_gets_round_to_it() {
    let mut st = State::default();
    let mut bodies: Vec<Body> = vec![];
    let body = 0x8000_0001;
    let life = 600 * SECOND;
    let seen = |b: &Vec<Body>| b.iter().map(|b| (b.guid, b.seen)).collect::<Vec<_>>();
    autoplay_watch_the_ground(&mut st, &mut bodies, &vec![body], &vec![], life, false, NOW);
    assert_eq!(seen(&bodies), vec![(body, NOW)], "a body nobody looted was never noted");
    // Noted once, not restamped every tick.
    let t = NOW + 5 * SECOND;
    autoplay_watch_the_ground(&mut st, &mut bodies, &vec![body], &vec![], life, false, t);
    assert_eq!(seen(&bodies), vec![(body, NOW)]);
    // Forgotten once emptied, so the list stays the size of what is on the
    // ground.
    let t = NOW + 6 * SECOND;
    autoplay_watch_the_ground(&mut st, &mut bodies, &vec![body], &vec![body], life, false, t);
    assert!(bodies.is_empty());
}

#[test]
fn a_hunting_area_is_walked_about_sooner_than_a_whole_new_ground_is_chosen() {
    let mut cfg = Growth::default();
    let patrol = Single { bits: PATROL_AFTER };
    assert_eq!(quiet_before_move(&cfg, false), cfg.idle_before_move);
    assert_eq!(quiet_before_move(&cfg, true), patrol);
    assert!(patrol.lt(cfg.idle_before_move));
    // A player who asked for less still gets less.
    cfg.idle_before_move = single(4.0);
    assert_eq!(quiet_before_move(&cfg, true), single(4.0));
    assert_eq!(quiet_before_move(&cfg, false), single(4.0));
}

#[test]
fn only_the_one_leading_walks_the_area_looking_for_a_fight() {
    let (h, area, cfg) = (headings(), about_me(), Growth::default());
    let mut st = State::default();
    let mut out = vec![];
    // Quiet for long enough that the patrol would go.
    st.quiet_since = Some(NOW - 60 * SECOND);
    let follower = HuntLook {
        area: Some(&area),
        follows: true,
        ..look(&h)
    };
    let r = grow_hunt(&mut st, &follower, &cfg, NOW, &mut out);
    assert!(matches!(r, HuntNext::Done(false)), "a follower wandered off: {r:?}");

    // The one leading walks it.
    let leader = HuntLook {
        area: Some(&area),
        ..look(&h)
    };
    match grow_hunt(&mut st, &leader, &cfg, NOW, &mut out) {
        HuntNext::AboutArea(to) => {
            let Shape::Outline { points } = &area.shape else {
                unreachable!()
            };
            assert!(inside(to, points));
        }
        r => panic!("the leader stayed put: {r:?}"),
    }
    assert!(looked_about_area(&area, true, &mut out));
    assert!(matches!(out.last(), Some(Order::Say(Doing::Traveling, _))));
    assert!(!looked_about_area(&area, false, &mut out));
}

#[test]
fn a_follower_with_no_hunting_area_does_not_go_looking_for_a_ground_of_its_own() {
    let (h, cfg) = (headings(), Growth::default());
    let mut st = State::default();
    let mut out = vec![];
    // Standing on the ground it is hunting, quiet long enough to move on, and
    // past its roams so the roam itself is refused.
    st.hunting_at = Some(HOLTBURG >> 16);
    st.roams = ROAMS;
    st.quiet_since = Some(NOW - 600 * SECOND);
    let follower = HuntLook {
        follows: true,
        ..look(&h)
    };
    let r = grow_hunt(&mut st, &follower, &cfg, NOW, &mut out);
    assert!(matches!(r, HuntNext::Done(false)), "a follower went hunting alone: {r:?}");
    assert!(st.bound.is_none(), "bound for a ground of its own");

    // The one leading still moves the party on: off a ground worth leaving, or
    // about one worth covering.
    let r = grow_hunt(&mut st, &look(&h), &cfg, NOW, &mut out);
    assert!(matches!(r, HuntNext::Roam(_)), "the leader stayed put: {r:?}");
    st.roams = ROAMS;
    st.quiet_since = Some(NOW - 600 * SECOND);
    let sweeps = HuntLook {
        tactic: Tactic::Sweep,
        ..look(&h)
    };
    let r = grow_hunt(&mut st, &sweeps, &cfg, NOW, &mut out);
    assert!(matches!(r, HuntNext::Find(_)), "the leader stayed put: {r:?}");
}

#[test]
fn a_walk_to_a_ground_broken_off_by_a_corpse_is_walked_on() {
    let (h, cfg) = (headings(), Growth::default());
    let mut st = State::default();
    let mut out = vec![];
    let to = at(32_532.0 + 250.0, 34_567.0);
    st.bound = Some(ground(0xAAB4, to));
    st.bound_since = Some(NOW);
    let broken = HuntLook {
        broken_off: true,
        ..look(&h)
    };
    let r = grow_hunt(&mut st, &broken, &cfg, NOW, &mut out);
    assert!(matches!(r, HuntNext::WalkOn(_)), "gave the walk up after a corpse: {r:?}");
    let r = hunt_walked_on(&mut st, me(), true, NOW, &mut out);
    assert!(matches!(r, HuntNext::Done(true)), "and did not walk on: {r:?}");
    assert!(st.bound.is_some());
    assert!(st.skip.is_empty(), "the ground was skipped");

    // Broken off again as soon as it is planned, it waits a moment before
    // planning the walk once more.
    let r = grow_hunt(&mut st, &broken, &cfg, NOW + SECOND, &mut out);
    assert!(matches!(r, HuntNext::Done(true)), "planned again straight away: {r:?}");
    let r = grow_hunt(&mut st, &broken, &cfg, NOW + WALK_ON_EVERY, &mut out);
    assert!(matches!(r, HuntNext::WalkOn(_)));

    // A walk that ended by itself short of the ground still could not get
    // there.
    let r = grow_hunt(&mut st, &look(&h), &cfg, NOW + WALK_ON_EVERY, &mut out);
    assert!(matches!(r, HuntNext::Done(false)), "{r:?}");
    assert!(st.bound.is_none());
    assert!(st.skip.iter().any(|s| s.landblock == 0xAAB4));
}

fn run_to(at: Spot, now: Moment) -> Run {
    Run {
        vendor: "Shopkeeper Renald the Elder".into(),
        at,
        phase: Phase::Going,
        since: now,
        last_sell: None,
        town: at,
        stops: 1,
        sold: 0,
        reason: "carrying as much as it means to".into(),
        errand: ac_client::counters::Errand::Sell,
        visited: vec![at],
        walked_on: None,
    }
}

#[test]
fn an_errand_outlives_its_walk_but_is_on_its_way_only_while_it_walks() {
    let mut st = State::default();
    let to = at(32_782.0, 34_567.0);
    st.bound = Some(ground(0xAAB4, to));
    // Bound, and walking there.
    assert!(on_its_way(&st, false, Some(false), None, false));
    // A body on the road breaks the walk off, and it is still the walk.
    assert!(on_its_way(&st, true, None, None, false), "a walk broken off is still the walk");
    // Arrived, or cancelled: no walk, whatever `bound` still says.
    assert!(!on_its_way(&st, false, None, None, false), "arrived, and still walking past");
    // Stepping out of a shop first is the start of the walk.
    st.after_out = Some(to);
    assert!(on_its_way(&st, false, None, None, false));
}

#[test]
fn a_party_is_on_its_way_together() {
    let mut st = State::default();
    // A leader going nowhere, and one on its way: so is its follower.
    assert!(!on_its_way(&st, false, None, None, false));
    assert!(on_its_way(&st, false, None, None, true), "a follower is on its leader's way");
    // On a run of its own, whatever the leader does.
    st.run = Some(run_to(at(32_782.0, 34_567.0), NOW));
    assert!(on_its_way(&st, false, Some(false), None, false));
}

#[test]
fn a_journey_is_a_road_and_a_roam_is_not() {
    let st = State::default();
    // A script's journey: on its way; put down for a fight, still the road.
    assert!(on_its_way(&st, false, Some(false), None, false));
    assert!(on_its_way(&st, false, None, Some(false), false));
    // A roam about the ground is not, nor one a fight has put down.
    assert!(!on_its_way(&st, false, Some(true), None, false));
    assert!(!on_its_way(&st, false, None, Some(true), false));
}

#[test]
fn a_run_under_way_is_not_walked_back_to_the_area() {
    let (x, y) = (32_572.0, 34_567.0);
    let area = Some(outline(&[
        [x, y],
        [x + 30.0, y],
        [x + 30.0, y + 30.0],
        [x, y + 30.0],
    ]));
    let mut keep = KeepLook {
        fight_enabled: true,
        on_a_run: true,
        fighting: false,
        me: Some(point(32_532.0, 34_567.0, 94.0)),
        cell: HOLTBURG,
        underground: false,
        under_way: false,
    };
    let mut out = vec![];
    let r = autoplay_keep_to_area(&area, &keep, &[], &mut out);
    assert!(matches!(r, Keep::Free), "walked back to the area on a run to town");
    // With no run, outside the field, it goes back to it.
    keep.on_a_run = false;
    match autoplay_keep_to_area(&area, &keep, &[], &mut out) {
        Keep::Walk { to, .. } => assert_eq!((to.x, to.y), (single(x + 15.0), single(y + 15.0))),
        r => panic!("{r:?}"),
    }
    assert!(walked_back("graveyard", true, &mut out));
    // Not out of a fight.
    keep.fighting = true;
    assert!(matches!(autoplay_keep_to_area(&area, &keep, &[], &mut out), Keep::Free));
    keep.fighting = false;
    // Into a dungeon by its portal, where one leads there.
    let dungeon = Some(HuntArea {
        name: "the dungeon".into(),
        shape: Shape::Dungeon {
            landblock: 0x01F6_0000,
            rooms: vec![],
        },
    });
    let portals = [Portal {
        name: "Holtburg Dungeon".into(),
        works: true,
        outdoors: true,
        to_cell: 0x01F6_0289,
        mouth: at(32_600.0, 34_690.0),
    }];
    let r = autoplay_keep_to_area(&dungeon, &keep, &portals, &mut out);
    assert!(matches!(r, Keep::Visit(0)), "{r:?}");
    out.clear();
    assert!(visited("the dungeon", "Holtburg Dungeon", true, &mut out));
    assert!(!visited("the dungeon", "Holtburg Dungeon", false, &mut out));
    assert!(matches!(out.last(), Some(Order::Note(s)) if s == "no way to the portal into the dungeon"));
}

#[test]
fn what_stands_in_the_area_or_has_just_struck_may_be_fought() {
    let area = Some(outline(&[[0.0, 0.0], [10.0, 0.0], [10.0, 10.0], [0.0, 10.0]]));
    let me = Some(point(5.0, 5.0, 0.0));
    let foe = |x: f32, hit_lately: bool| Foe {
        at: Some(point(x, 5.0, 0.0)),
        cell: HOLTBURG,
        hit_lately,
    };
    assert!(area_allows(&area, &foe(6.0, false), me, false));
    assert!(!area_allows(&area, &foe(20.0, false), me, false));
    assert!(area_allows(&area, &foe(20.0, true), me, false), "it swung at us");
    assert!(!area_allows(&area, &foe(200.0, true), me, false), "and is far off");
    assert!(area_allows(&None, &foe(20.0, false), me, false), "no area");
    assert!(!area_allows_guid(&area, Some(&foe(20.0, false)), me, false));
}

#[test]
fn walking_the_hunting_ground_is_not_being_on_the_way_to_it() {
    let (h, area, cfg) = (headings(), about_me(), Growth::default());
    let mut st = State::default();
    let mut out = vec![];
    // Quiet long enough to walk the area, and it walks it.
    st.quiet_since = Some(NOW - 600 * SECOND);
    let leader = HuntLook {
        area: Some(&area),
        ..look(&h)
    };
    let r = grow_hunt(&mut st, &leader, &cfg, NOW, &mut out);
    assert!(matches!(r, HuntNext::AboutArea(_)), "the patrol stayed put: {r:?}");
    assert!(looked_about_area(&area, true, &mut out));
    assert!(st.bound.is_none(), "the patrol is not an errand");
    // The walk it set out on is one about the ground.
    assert!(!on_its_way(&st, false, Some(true), None, false));
}

#[test]
fn a_journey_from_indoors_steps_outside_first() {
    let mut st = State::default();
    let goal = at(33_000.0, 34_000.0);
    let inside = Where {
        me: me(),
        cell: 0xA9B4_0117,
        indoors: true,
    };
    // Nowhere it has been outdoors is known: straight there.
    assert!(matches!(grow_travel(&mut st, Some(inside)), Legs::Straight));
    let door = at(32_540.0, 34_570.0);
    st.last_outdoors = Some(door);
    let out_first = grow_travel(&mut st, Some(inside));
    let Legs::OutFirst(to) = out_first else {
        panic!("{out_first:?}");
    };
    assert_eq!(to, door);
    let mut out = vec![];
    stepped_outside(&mut st, goal, &mut out);
    assert_eq!(st.after_out, Some(goal));
    // Nothing more until that walk is over, and then the journey proper.
    assert_eq!(grow_travel_on(&mut st, true), None);
    assert_eq!(grow_travel_on(&mut st, false), Some(goal));
    assert_eq!(st.after_out, None);
    assert!(matches!(grow_travel(&mut st, None), Legs::Nowhere));
}

#[test]
fn a_ground_is_chosen_gone_to_and_skipped() {
    let (h, mut cfg) = (headings(), Growth::default());
    let mut st = State::default();
    let mut out = vec![];
    cfg.hunt_at = 0xAAB4;
    let far = ground(0xAAB4, at(33_000.0, 34_567.0));
    // The ground the player named, without a look at levels.
    let pinned = HuntLook {
        pinned: Some(&far),
        ..look(&h)
    };
    st.quiet_since = Some(NOW - 600 * SECOND);
    let r = grow_hunt(&mut st, &pinned, &cfg, NOW, &mut out);
    let HuntNext::GoTo { ground: g, named } = r else {
        panic!("{r:?}");
    };
    assert!(named);
    let r = road_planned(&mut st, &pinned, g, true, true, NOW, &mut out);
    assert!(matches!(r, HuntNext::Done(true)), "{r:?}");
    assert_eq!(st.bound.as_ref().map(|g| g.landblock), Some(0xAAB4));

    // None found: said, and looked for again after a while.
    cfg.hunt_at = 0;
    let mut st = State::default();
    assert!(!ground_found(&mut st, &None, 20, 8, NOW, &mut out));
    let found = Found {
        ground: far.clone(),
        min_level: 15,
        max_level: 25,
    };
    assert!(ground_found(&mut st, &Some(found.clone()), 20, 8, NOW, &mut out));
    assert!(!ground_planned(&mut st, found.clone(), me(), false, NOW, &mut out));
    assert!(st.skip.iter().any(|s| s.landblock == 0xAAB4), "no way there is a ground skipped");
    assert_eq!(st.next_hunt, Some(NOW + RETRY_AFTER));
    // And is not chosen again until its time is up.
    st.quiet_since = Some(NOW - 600 * SECOND);
    st.next_hunt = None;
    let r = grow_hunt(&mut st, &look(&h), &cfg, NOW + SECOND, &mut out);
    let HuntNext::Find(avoid) = r else {
        panic!("{r:?}");
    };
    assert!(avoid.contains(&0xAAB4));
    let r = grow_hunt(&mut st, &look(&h), &cfg, NOW + SKIP_GROUND_FOR + SECOND, &mut out);
    assert!(matches!(r, HuntNext::Find(ref avoid) if !avoid.contains(&0xAAB4)), "{r:?}");
    assert!(ground_planned(&mut st, found, me(), true, NOW, &mut out));
    assert_eq!(st.bound.as_ref().map(|g| g.landblock), Some(0xAAB4));
}

#[test]
fn a_quiet_ground_is_roamed_before_it_is_left() {
    let (h, cfg) = (headings(), Growth::default());
    let mut st = State::default();
    let mut out = vec![];
    st.hunting_at = Some(HOLTBURG >> 16);
    st.quiet_since = Some(NOW - 600 * SECOND);
    let r = grow_hunt(&mut st, &look(&h), &cfg, NOW, &mut out);
    assert!(matches!(r, HuntNext::Roam(_)), "{r:?}");
    let r = hunt_roamed(&mut st, &look(&h), &cfg, true, NOW, &mut out);
    assert!(matches!(r, HuntNext::Done(true)), "{r:?}");
    assert_eq!(st.roams, 1);
}

#[test]
fn the_ground_of_the_leader_is_the_partys() {
    let mut st = State::default();
    let g = ground(0xAAB4, me());
    assert!(hunting_ground(&st, None).is_none());
    st.bound = Some(g.clone());
    assert_eq!(hunting_ground(&st, None).map(|g| g.landblock), Some(0xAAB4));
    assert!(party_ground(true, false, Some(&g)).is_some());
    assert!(party_ground(true, true, Some(&g)).is_none(), "the leader follows nobody");
    assert!(party_ground(false, false, Some(&g)).is_none());
}

#[test]
fn a_journey_begun_indoors_is_gone_on_with() {
    let h = headings();
    let mut st = State::default();
    let mut out = vec![];
    let to = at(33_000.0, 34_567.0);
    st.bound = Some(ground(0xAAB4, to));
    st.bound_since = Some(NOW);
    st.after_out = Some(to);
    let cfg = Growth::default();
    let r = grow_hunt(&mut st, &look(&h), &cfg, NOW, &mut out);
    assert!(matches!(r, HuntNext::TravelOn(_)), "{r:?}");
    let r = hunt_traveled_on(&mut st, &look(&h), true, NOW, &mut out);
    assert!(matches!(r, HuntNext::Done(true)), "{r:?}");
    assert!(st.bound.is_some());
    // The player takes the character back.
    st.let_go();
    assert!(st.bound.is_none() && st.after_out.is_none());
    assert!(!st.has_an_errand());
}

#[test]
fn an_outline_may_begin_anywhere_and_go_either_way_round() {
    let l = spots(&[
        [0.0, 0.0],
        [100.0, 0.0],
        [100.0, 50.0],
        [50.0, 50.0],
        [50.0, 100.0],
        [0.0, 100.0],
    ]);
    for (p, within) in [
        (at(25.0, 75.0), true),
        (at(75.0, 25.0), true),
        (at(75.0, 75.0), false),
        (at(-1.0, 50.5), false),
    ] {
        for k in 0..=l.len() {
            let turned: Vec<Spot> = l[k..].iter().chain(&l[..k]).copied().collect();
            assert_eq!(inside(p, &turned), within, "{p:?} from {k}");
            let round: Vec<Spot> = turned.iter().rev().copied().collect();
            assert_eq!(inside(p, &round), within, "{p:?} from {k}, the other way");
        }
    }
    assert!(!inside(at(1.0, 1.0), &l[..2]), "two corners enclose nothing");
}
