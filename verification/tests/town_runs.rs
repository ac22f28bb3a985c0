use ac_client::clock::{Moment, SECOND};
use ac_client::config::{Growth, Tactic, Team};
use ac_client::counters::{Errand, Shop, Ware};
use ac_client::grow::{
    autoplay_drives_town_runs, autoplay_grow, goes_hunting, GrowLook, GrowNext,
};
use ac_client::hand::{
    autoplay_close_unwanted_window, counter_at_hand, counter_left_behind, open_counter_at_hand,
    town_run_by_hand, town_run_driver, town_run_started_by_hand, town_run_step_by_hand,
    town_run_stop, town_run_view, HandLook, HandNext, Peek, TownRunView, ASKED_FOR,
};
use ac_client::hunting::{grow_hunt, hunt_roamed, HuntLook, HuntNext};
use ac_client::logistics::{GroupMode, Restock, Stage};
use ac_client::orders::Order;
use ac_client::place::{spot, Point, Spot};
use ac_client::run::{
    grow_run_step, run_looked_over, run_poured, run_traded, run_traveled_on, run_walked_on,
    vendor_object, Being,
    Poured, RunLook, RunNext, Trade,
};
use ac_client::setting_out::{start_town_run, town_run_planned, StartNext};
use ac_client::single::Single;
use ac_client::state::{
    counter_asked, wait_between_runs, Driver, NeedsMemory, Phase, Run, State, Turn, BUSY_ASKS,
    BUSY_REASK, FUTILE_RUN_WAIT, HAND_HOLD, RUN_EVERY, VENDOR_OPEN_TIMEOUT, WALK_ON_EVERY,
};
use ac_client::stops::{
    grow_run_next, home_planned, next_stop_planned, run_over, LeaveLook, OverLook, OverNext,
    StopNext, STOPS_PER_RUN,
};
use ac_client::townrun::{grow_town_run, held_back, TownLook, TownNext, Trip};
use ac_client::vendors::{Field, Landmark, Stand, Stop, Way};
use ac_client::wares::{worth_a_sale_run, Need, NeedKind, Salable};

const ARMOR: u32 = 0x2;
const CLOTHING: u32 = 0x4;
const SPELL_COMPONENTS: u32 = 0x1000;
const NOW: Moment = 100_000 * SECOND;
const CINDRUE: u32 = 0x7a9b_4033;
const RAKK: u32 = 0x8000_0002;

fn single(x: f32) -> Single {
    Single { bits: x.to_bits() }
}

fn at(x: f32, y: f32) -> Spot {
    Spot {
        x: single(x),
        y: single(y),
    }
}

fn off(from: Spot, x: f32) -> Spot {
    at(f32::from_bits(from.x.bits) + x, f32::from_bits(from.y.bits))
}

fn me() -> Spot {
    at(32_532.0, 34_567.0)
}

/// A run on its way to a counter at `at`, set off at `now`.
fn run_to(at: Spot, now: Moment) -> Run {
    Run {
        vendor: "Shopkeeper Renald the Elder".into(),
        at,
        phase: Phase::Going,
        since: now,
        last_sell: None,
        town: at,
        stops: 1,
        sold: 0,
        reason: "carrying as much as it means to".into(),
        errand: Errand::Sell,
        visited: vec![at],
        walked_on: None,
    }
}

fn opening(guid: u32) -> Phase {
    Phase::Opening {
        guid,
        tries: 1,
        busy: None,
        asked_over: 0,
    }
}

fn salable(guid: u32, item_type: u32, value: u32, stack: u32) -> Salable {
    Salable {
        guid,
        item_type,
        value,
        stack,
    }
}

fn arrowshafts(have: u32, keep: u32, urgent: bool) -> Need {
    Need {
        name: "Bundle of Arrowshafts".into(),
        want: keep - have,
        have,
        keep,
        urgent,
        buyable: true,
        from: None,
        kind: NeedKind::Named("Bundle of Arrowshafts".into()),
    }
}

/// A counter: who, how far off, what it buys and at how many tenths, and what
/// it sells.
struct Counter {
    name: &'static str,
    metres: f32,
    buys: u32,
    tenths: u32,
    sells: Vec<&'static str>,
    held: bool,
}

struct Window {
    guid: u32,
    item_types: u32,
}

/// A session, with the world it sees in plain values.
struct Session {
    st: State,
    memory: NeedsMemory,
    cfg: Growth,
    team: Team,
    mates: usize,
    enabled: bool,
    traveling: bool,
    broken_off: bool,
    following: bool,
    cast: bool,
    window: Option<Window>,
    beings: Vec<Being>,
    town: Vec<Counter>,
    carried: Vec<Salable>,
    counted: Vec<Need>,
    purse: u32,
    room: u32,
    uses: Vec<u32>,
    notes: Vec<String>,
    status: String,
    left_alone: Vec<((i32, i32), u64)>,
    fresh_shops: u32,
}

fn holtburg() -> Session {
    Session {
        st: State::default(),
        memory: NeedsMemory { seen: None },
        cfg: Growth::default(),
        team: Team {
            enabled: false,
            restock: Restock::default(),
        },
        mates: 0,
        enabled: false,
        traveling: false,
        broken_off: false,
        following: false,
        cast: false,
        window: None,
        beings: vec![],
        town: vec![
            Counter {
                name: "Fletcher Alnur",
                metres: 60.0,
                buys: 0x100,
                tenths: 9,
                sells: vec!["Bundle of Arrowshafts", "Arrowhead"],
                held: false,
            },
            Counter {
                name: "Archmage Cindrue",
                metres: 160.0,
                buys: SPELL_COMPONENTS,
                tenths: 9,
                sells: vec!["Prismatic Taper", "Lead Scarab"],
                held: false,
            },
            Counter {
                name: "Rakk the Peddler",
                metres: 0.0,
                buys: ARMOR | CLOTHING,
                tenths: 5,
                sells: vec!["Tunic"],
                held: true,
            },
        ],
        carried: vec![],
        counted: vec![],
        purse: 1_000,
        room: 40,
        uses: vec![],
        notes: vec![],
        status: String::new(),
        left_alone: vec![],
        fresh_shops: 0,
    }
}

impl Session {
    fn pea(&mut self, guid: u32, value: u32) {
        self.carried.push(salable(guid, SPELL_COMPONENTS, value, 1));
    }

    fn being(&mut self, guid: u32, name: &str, metres: f32) {
        let here = off(me(), metres);
        self.beings.push(Being {
            guid,
            name: name.into(),
            at: Some(Point {
                x: here.x,
                y: here.y,
                z: single(0.0),
            }),
            vendor: true,
            creature: true,
            attackable: false,
            player: false,
        });
    }

    fn apply(&mut self, out: Vec<Order>) {
        for order in out {
            match order {
                Order::Note(s) => self.notes.push(s),
                Order::Say(_, s) => self.status = s,
                Order::CancelTravel => {
                    self.traveling = false;
                    self.broken_off = false;
                }
                Order::CloseVendor => self.window = None,
                Order::UseObject(g) => self.uses.push(g),
                Order::HeadFor { .. } => self.following = true,
                Order::StopFollowing => self.following = false,
                Order::NewShop => self.fresh_shops += 1,
                Order::SkipVendor { x, y, .. } => self.left_alone.push(((x, y), 0)),
                Order::HoldVendor { x, y, span } => self.left_alone.push(((x, y), span)),
                _ => {}
            }
        }
    }

    fn plan(&mut self) -> bool {
        self.traveling = true;
        self.broken_off = false;
        true
    }

    fn interrupt_travel(&mut self) {
        self.traveling = false;
        self.broken_off = true;
    }

    fn stands(&self) -> Vec<Stand> {
        self.town
            .iter()
            .map(|c| Stand {
                shop: Shop {
                    name: c.name.into(),
                    sells: c
                        .sells
                        .iter()
                        .enumerate()
                        .map(|(i, n)| Ware {
                            wcid: 100 + i as u32,
                            name: (*n).into(),
                            value: 10,
                            charge: 12,
                        })
                        .collect(),
                    buys: c.buys,
                    min_value: 0,
                    max_value: 0,
                },
                at: off(me(), c.metres),
                open: true,
                held: c.held
                    || self
                        .left_alone
                        .iter()
                        .any(|(s, _)| *s == spot(off(me(), c.metres))),
                paid: self
                    .carried
                    .iter()
                    .map(|it| Some(it.each() * c.tenths / 10))
                    .collect(),
            })
            .collect()
    }

    fn marks(&self) -> Vec<Landmark> {
        self.stands()
            .iter()
            .map(|s| Landmark {
                name: s.shop.name.clone(),
                at: s.at,
                held: s.held,
            })
            .collect()
    }

    fn to_sell_here(&self) -> usize {
        match &self.window {
            Some(w) => self
                .carried
                .iter()
                .filter(|it| it.taken_by(w.item_types, 0, 0))
                .count(),
            None => 0,
        }
    }

    fn look(&self) -> RunLook {
        RunLook {
            me: Some(me()),
            traveling: self.traveling,
            broken_off: self.broken_off,
            busy: false,
            cast_in_flight: self.cast,
            window: self.window.as_ref().map(|w| w.guid),
            following: self.following,
            beings: self.beings.clone(),
            unappraised: false,
            vendor_busy: false,
        }
    }

    /// One turn of the run, all that it asks answered.
    fn grow_run_step(&mut self, now: Moment) -> Turn {
        let mut out = vec![];
        let look = self.look();
        let mut next = grow_run_step(&mut self.st, &look, now, &mut out);
        loop {
            self.apply(std::mem::take(&mut out));
            next = match next {
                RunNext::Turned(t) => return t,
                RunNext::TravelOn(_) => {
                    let way = self.plan();
                    run_traveled_on(&mut self.st, &look, way, now, &mut out)
                }
                RunNext::WalkOn(_) => {
                    let way = self.plan();
                    run_walked_on(&mut self.st, me(), way, now, &mut out)
                }
                RunNext::LookOver => run_looked_over(&mut self.st, 0, now, &mut out),
                RunNext::Pour => {
                    let n = self.to_sell_here();
                    let carrying = self.carried.len();
                    run_poured(&mut self.st, Poured::Settled, n, carrying, now, &mut out)
                }
                RunNext::Trade => {
                    run_traded(&mut self.st, "waiting".into(), Trade::Done, now, &mut out)
                }
                RunNext::Leave(left) => {
                    return Turn::after_stop(self.leave(left, now));
                }
            };
        }
    }

    /// Done with a counter: on to the next, or home.
    fn leave(&mut self, left: Option<ac_client::run::Left>, now: Moment) -> bool {
        let mut out = vec![];
        let (stands, marks) = (self.stands(), self.marks());
        let ways = [Way {
            at: me(),
            name: "here".into(),
        }];
        let carried = self.carried.clone();
        let field = Field {
            stands: &stands,
            marks: &marks,
            ways: &ways,
            named: None,
            purse: self.purse,
            salables: &carried,
        };
        let look = LeaveLook {
            still_full: false,
            room: self.room,
        };
        let open = self.window.is_some();
        let needs = self.counted.clone();
        let next = grow_run_next(&mut self.st, left, open, &field, &needs, &look, &mut out);
        self.apply(std::mem::take(&mut out));
        if let StopNext::Walk(stop) = next {
            let way = self.plan();
            let on = next_stop_planned(&mut self.st, stop, way, now, &mut out);
            self.apply(std::mem::take(&mut out));
            if on {
                return true;
            }
        }
        let over = OverLook {
            left,
            still_full: false,
            needs: &needs,
            spendable: self.purse,
            to_sell: carried.len(),
        };
        let next = run_over(&mut self.st, &over, None, now, &mut out);
        self.apply(std::mem::take(&mut out));
        match next {
            OverNext::Home(ground) => {
                let way = self.plan();
                let r = home_planned(&mut self.st, ground, way, now, &mut out);
                self.apply(out);
                r
            }
            OverNext::Over => false,
        }
    }

    /// Choose a counter and set off for it.
    fn start(
        &mut self,
        needs: Vec<Need>,
        reason: String,
        errand: Errand,
        within: Option<Single>,
        go_anyway: bool,
        now: Moment,
    ) -> Result<(), String> {
        let mut out = vec![];
        let (stands, marks) = (self.stands(), self.marks());
        let ways = [Way {
            at: me(),
            name: "here".into(),
        }];
        let carried = self.carried.clone();
        let field = Field {
            stands: &stands,
            marks: &marks,
            ways: &ways,
            named: None,
            purse: self.purse,
            salables: &carried,
        };
        let visited = vec![];
        let stop = Stop {
            errand,
            within,
            visited: &visited,
        };
        let next = start_town_run(
            &mut self.st,
            Some(me()),
            &needs,
            reason,
            &stop,
            go_anyway,
            &field,
            now,
            &mut out,
        );
        self.apply(std::mem::take(&mut out));
        match next {
            StartNext::Refused(why) => Err(why),
            StartNext::Walk(first) => {
                let way = self.plan();
                let r = town_run_planned(&mut self.st, first, needs, way, now, &mut out);
                self.apply(out);
                r
            }
        }
    }

    fn grow_town_run(&mut self, now: Moment) -> bool {
        let mut out = vec![];
        let carried = self.carried.clone();
        let look = TownLook {
            busy: false,
            traveling: self.traveling,
            carrying: 0,
            capacity: 9_000,
            burden_room: 9_000,
            full: false,
            room_anywhere: self.room,
            laden: false,
            salables: &carried,
            spendable: self.purse,
            together: self.team.enabled && self.team.restock.together && self.mates > 0,
            by_quartermaster: false,
            is_quartermaster: false,
        };
        let next = grow_town_run(
            &mut self.st,
            &mut self.memory,
            &look,
            &self.cfg,
            &self.counted,
            now,
            &mut out,
        );
        self.apply(out);
        match next {
            TownNext::Step => self.grow_run_step(now).goes_on(),
            TownNext::Held => false,
            TownNext::Start(trip) => {
                let r = self.start(
                    trip.needs,
                    trip.reason,
                    trip.errand,
                    trip.within,
                    trip.go_anyway,
                    now,
                );
                match r {
                    Ok(()) => true,
                    Err(why) => {
                        held_back(&mut self.st, why);
                        false
                    }
                }
            }
        }
    }

    /// One tick of the growth rules.
    fn autoplay_grow(&mut self, now: Moment) -> bool {
        let mut out = vec![];
        let look = GrowLook {
            in_world: true,
            outdoors: Some(me()),
            underground: false,
            roams_an_area: false,
            window_open: self.window.is_some(),
        };
        let next = autoplay_grow(
            &mut self.st,
            look,
            &self.cfg,
            &self.team,
            &[],
            self.mates,
            now,
            &mut out,
        );
        self.apply(out);
        match next {
            GrowNext::Nothing => false,
            GrowNext::Claimed => true,
            GrowNext::GoOn { town, mode } => {
                (town && self.grow_town_run(now))
                    || (goes_hunting(&self.st, &self.cfg, false, mode) && self.grow_hunt(now))
            }
        }
    }

    /// The hunt, as far as looking about the ground goes.
    fn grow_hunt(&mut self, now: Moment) -> bool {
        let headings = [at(1.0, 0.0), at(-0.5, 0.8), at(-0.5, -0.8)];
        let look = HuntLook {
            me: Some(me()),
            cell: 0xA9B4_0019,
            traveling: self.traveling,
            broken_off: self.broken_off,
            busy: false,
            level: 20,
            area: None,
            follows: false,
            stragglers: false,
            tactic: Tactic::Patrol,
            idle: true,
            headings: &headings,
            origin: at(32_448.0, 34_560.0),
            pinned: None,
            party: None,
        };
        let mut out = vec![];
        let next = grow_hunt(&mut self.st, &look, &self.cfg, now, &mut out);
        self.apply(std::mem::take(&mut out));
        match next {
            HuntNext::Done(did) => did,
            HuntNext::Roam(_) => {
                let way = self.plan();
                let next = hunt_roamed(&mut self.st, &look, &self.cfg, way, now, &mut out);
                self.apply(out);
                matches!(next, HuntNext::Done(true))
            }
            other => panic!("{other:?}"),
        }
    }

    fn drives(&self) -> bool {
        autoplay_drives_town_runs(self.enabled, &self.cfg)
    }

    fn driver(&self) -> Option<Driver> {
        town_run_driver(&self.st, self.drives())
    }

    fn town_run_by_hand(&mut self, now: Moment) -> Result<(), String> {
        let mut out = vec![];
        let window = self.window.as_ref().map(|w| w.guid);
        let look = HandLook {
            drives: self.drives(),
            busy: false,
            room_anywhere: self.room,
            traveling: self.traveling,
            at_hand: open_counter_at_hand(Some(me()), &self.beings, window),
            to_sell: self.carried.len(),
        };
        let next = town_run_by_hand(
            &mut self.st,
            &mut self.memory,
            look,
            &self.counted,
            now,
            &mut out,
        );
        self.apply(out);
        match next {
            HandNext::Running => Ok(()),
            HandNext::Refused(why) => Err(why),
            HandNext::Start(trip) => self.set_out_by_hand(trip, now),
        }
    }

    fn set_out_by_hand(&mut self, trip: Trip, now: Moment) -> Result<(), String> {
        let mut next = HandNext::Start(trip);
        loop {
            next = match next {
                HandNext::Running => return Ok(()),
                HandNext::Refused(why) => return Err(why),
                HandNext::Start(trip) => {
                    let (needs, errand) = (trip.needs.clone(), trip.errand);
                    let started = self.start(
                        trip.needs,
                        trip.reason,
                        trip.errand,
                        trip.within,
                        trip.go_anyway,
                        now,
                    );
                    let drives = self.drives();
                    town_run_started_by_hand(&mut self.st, needs, errand, started, drives, now)
                }
            };
        }
    }

    fn step_by_hand(&mut self, now: Moment) -> Turn {
        if town_run_step_by_hand(&mut self.st, now) {
            self.grow_run_step(now)
        } else {
            Turn::Over
        }
    }

    fn stop(&mut self, now: Moment) {
        let mut out = vec![];
        town_run_stop(
            &mut self.st,
            self.window.is_some(),
            self.following,
            now,
            &mut out,
        );
        self.apply(out);
    }

    fn view(&self) -> TownRunView {
        let peek = Peek {
            act: None,
            saying: "waiting".into(),
            sold: 0,
            waiting: self.carried.len(),
        };
        town_run_view(&self.st, Some(me()), self.drives(), peek).expect("no run to show")
    }

    fn at_hand(&self) -> Option<String> {
        let window = self.window.as_ref().map(|w| w.guid);
        counter_at_hand(&self.st, Some(me()), &self.beings, window)
    }

    fn run(&self) -> &Run {
        self.st.run.as_ref().expect("no run")
    }

    fn left_alone(&self, at: Spot) -> Option<u64> {
        let s = spot(at);
        self.left_alone
            .iter()
            .filter(|(k, _)| *k == s)
            .map(|(_, span)| *span)
            .max()
    }
}

/// A run standing at Archmage Cindrue's counter in `phase`.
fn a_run_at_cindrue(c: &mut Session, phase: Phase, now: Moment) {
    c.beings.clear();
    c.being(CINDRUE, "Archmage Cindrue", 0.0);
    let mut run = run_to(me(), now);
    run.vendor = "Archmage Cindrue".into();
    run.phase = phase;
    c.st.run = Some(run);
}

#[test]
fn a_run_whose_walk_is_broken_off_by_a_corpse_walks_on_after_a_moment() {
    let mut c = holtburg();
    c.plan();
    c.st.run = Some(run_to(off(me(), 250.0), NOW));
    assert!(c.grow_run_step(NOW).goes_on());
    assert!(c.traveling);
    // A corpse on the way breaks the walk off, and the run walks on once it is
    // dealt with. Broken off again straight away, the run waits a moment.
    c.interrupt_travel();
    assert!(c.grow_run_step(NOW).goes_on());
    assert!(c.traveling, "the run did not walk on after a corpse");
    c.interrupt_travel();
    assert!(c.grow_run_step(NOW + SECOND).goes_on());
    assert!(!c.traveling, "planned again straight away");
    assert!(c.grow_run_step(NOW + WALK_ON_EVERY).goes_on());
    assert!(c.traveling);
}

#[test]
fn a_run_that_failed_waits_before_the_next() {
    for party_restocking in [false, true] {
        let wait = wait_between_runs(party_restocking, true);
        assert!(wait > 0, "straight back to the same counter");
        assert!(wait <= RUN_EVERY);
    }
    // A party that did buy or sell something may go again at once.
    assert_eq!(wait_between_runs(true, false), 0);
    assert_eq!(wait_between_runs(false, false), RUN_EVERY);
    assert_eq!(wait_between_runs(true, true), FUTILE_RUN_WAIT);
}

#[test]
fn an_errand_whose_setting_is_turned_off_is_let_go() {
    let mut c = holtburg();
    let to = at(32_500.0, 34_500.0);
    c.cfg.auto_xp = false;
    c.cfg.town_runs = false;
    c.cfg.hunt_grounds = false;
    c.st.run = Some(run_to(to, NOW));
    c.st.bound = Some(ac_client::state::Ground {
        landblock: 0xA9B2,
        at: to,
        name: "Drudge".into(),
    });
    c.autoplay_grow(NOW);
    assert!(!c.st.town_run_under_way(), "the run was kept");
    assert!(c.st.bound.is_none(), "the walk was kept");
}

#[test]
fn a_run_asked_for_from_the_panel_chooses_a_counter_and_sets_off() {
    let mut c = holtburg();
    let now = NOW;
    assert!(!c.enabled);
    assert_eq!(c.driver(), None);
    c.town_run_by_hand(now).expect("no run was started");
    assert_eq!(c.driver(), Some(Driver::Hand));
    assert!(c.traveling, "chose a counter and did not set off");
    let v = c.view();
    assert_eq!(v.phase, "Going");
    assert_eq!(v.driver, Driver::Hand);
    assert_eq!(v.next, None, "nothing is decided on the walk");
    // The walk is a wait, and a Step waits it out.
    assert_eq!(c.step_by_hand(now), Turn::Waited);
    assert!(c.traveling);
    // Pressed again, the run under way is the one shown; a second is not
    // started.
    c.town_run_by_hand(now).unwrap();
    assert_eq!(c.view().vendor, v.vendor);
    assert_eq!(c.run().since, now);

    // Autoplay turned on meanwhile leaves the run to the panel -- it neither
    // steps it nor, with town runs off, lets it go -- but counts the character
    // as busy with it.
    c.enabled = true;
    c.cfg.town_runs = false;
    assert_eq!(c.driver(), Some(Driver::Hand));
    c.autoplay_grow(now);
    assert!(c.st.town_run_under_way(), "let go for town runs being off");
    c.cfg.town_runs = true;
    assert!(c.autoplay_grow(now), "the run did not keep the tick");
    assert_eq!(c.driver(), Some(Driver::Hand));
    assert!(c.traveling, "autoplay stepped the panel's run");

    // Stop leaves the character as it stands: no run, no walk, nothing to walk
    // up to, no window.
    c.stop(now);
    assert_eq!(c.driver(), None);
    assert!(!c.traveling);
    assert!(!c.following);
    assert!(c.window.is_none());
    assert!(c.fresh_shops > 0, "the shopping rules were not made afresh");
    // And autoplay, now running town runs, does not set straight off on one of
    // its own.
    assert!(!c.autoplay_grow(now), "autoplay started a run at once");
    assert_eq!(c.driver(), None);
}

#[test]
fn a_run_started_under_autoplay_is_autoplays_to_step() {
    let mut c = holtburg();
    c.enabled = true;
    c.town_run_by_hand(NOW).expect("no run was started");
    assert_eq!(c.driver(), Some(Driver::Autoplay));
    assert!(c.autoplay_grow(NOW));
    assert!(c.traveling);
    // Until the panel steps it itself, which makes it the panel's.
    assert_eq!(c.step_by_hand(NOW), Turn::Waited);
    assert_eq!(c.driver(), Some(Driver::Hand));
}

#[test]
fn the_shopping_rules_start_every_counter_fresh() {
    let mut c = holtburg();
    // A run at the counter with the pack looked over.
    let mut run = run_to(me(), NOW);
    run.phase = Phase::Appraising;
    run.since = NOW - 30 * SECOND;
    c.st.run = Some(run);
    assert_eq!(c.grow_run_step(NOW), Turn::Waited);
    assert!(matches!(c.run().phase, Phase::Selling));
    assert_eq!(c.fresh_shops, 1, "the rules were not started fresh");
    assert_eq!(c.view().sold, 0);

    // Waiting for a window is a wait; asking again after the counter's time is
    // up is an act.
    let mut run = run_to(me(), NOW);
    run.phase = opening(0x8000_0001);
    c.st.run = Some(run);
    assert_eq!(c.grow_run_step(NOW), Turn::Waited);
    assert_eq!(c.view().phase, "Opening");
    let later = NOW + VENDOR_OPEN_TIMEOUT + SECOND;
    assert_eq!(c.grow_run_step(later), Turn::Acted);
    assert!(matches!(c.run().phase, Phase::Opening { tries: 2, .. }));
}

#[test]
fn a_hand_run_left_held_is_autoplays_again_once_it_runs_town_runs() {
    let mut c = holtburg();
    c.town_run_by_hand(NOW).expect("no run was started");
    assert_eq!(c.driver(), Some(Driver::Hand));
    c.enabled = true;
    c.cfg.town_runs = true;
    // Just pressed: still the panel's, and not stepped by autoplay.
    assert!(c.autoplay_grow(NOW));
    assert_eq!(c.driver(), Some(Driver::Hand));
    // Left alone: autoplay's, and stepped on.
    let later = NOW + HAND_HOLD;
    assert!(c.autoplay_grow(later));
    assert_eq!(c.driver(), Some(Driver::Autoplay));
    assert!(c.st.town_run_under_way());
    assert!(c.traveling);
    assert!(c.notes.iter().any(|n| n == "the vendoring panel let go of its run: autoplay takes it on"));
    // The panel stepping it again takes it back, for as long as it keeps
    // stepping.
    assert_eq!(c.step_by_hand(later), Turn::Waited);
    assert_eq!(c.driver(), Some(Driver::Hand));
    assert!(c.autoplay_grow(later));
    assert_eq!(c.driver(), Some(Driver::Hand));
}

#[test]
fn a_hand_run_with_town_runs_off_keeps_the_hunting_off_the_counter() {
    let mut c = holtburg();
    c.enabled = true;
    c.cfg.town_runs = false;
    c.cfg.hunt_grounds = true;
    c.st.hunting_at = Some(0xA9B4);
    c.st.quiet_since = Some(NOW - 600 * SECOND);
    // At the counter, waiting on its window, held by the panel.
    let mut run = run_to(me(), NOW);
    run.phase = opening(0x8000_0001);
    c.st.run = Some(run);
    c.st.by_hand = true;
    assert!(c.autoplay_grow(NOW), "the run did not keep the tick");
    assert!(!c.traveling, "the hunting walked off the counter");
    assert!(c.st.bound.is_none());
    assert!(c.st.town_run_under_way());
    assert!(c.status.contains("held by the vendoring panel"), "{:?}", c.status);
    // Without the run the same tick goes looking about the ground, which is
    // what the run was keeping it from.
    c.st.by_hand = false;
    assert!(c.autoplay_grow(NOW));
    assert!(!c.st.town_run_under_way(), "kept with town runs off");
    assert!(c.traveling, "the hunting did not move");
}

#[test]
fn run_pressed_at_a_counter_the_player_opened_sells_there() {
    let mut c = holtburg();
    c.being(RAKK, "Rakk the Peddler", 1.0);
    c.window = Some(Window {
        guid: RAKK,
        item_types: 0,
    });
    c.town_run_by_hand(NOW).expect("no run was started");
    let v = c.view();
    assert_eq!(v.vendor, "Rakk the Peddler");
    assert_eq!(v.phase, "Opening");
    assert!(!c.traveling, "walked off to another counter");
    assert_eq!(c.step_by_hand(NOW), Turn::Acted);
    assert_eq!(c.view().phase, "Appraising");
    assert!(c.window.is_some(), "the window was closed");

    // A window left open from across the town is not a counter at hand: the run
    // chooses one and sets off, as it always did.
    c.stop(NOW);
    c.beings.clear();
    c.being(RAKK, "Rakk the Peddler", 60.0);
    c.window = Some(Window {
        guid: RAKK,
        item_types: 0,
    });
    c.town_run_by_hand(NOW).expect("no run was started");
    assert_eq!(c.view().phase, "Going");
    assert!(c.traveling);
}

#[test]
fn a_hand_run_is_refused_with_no_slot_for_the_money() {
    let mut c = holtburg();
    c.room = 0;
    assert_eq!(
        c.town_run_by_hand(NOW),
        Err("no free slot for a counter's money".into())
    );
    assert_eq!(c.driver(), None);
    assert!(!c.traveling);
}

#[test]
fn a_window_that_opens_after_the_run_stopped_is_closed() {
    let mut c = holtburg();
    fn asking(c: &mut Session) {
        let mut run = run_to(me(), NOW);
        run.phase = opening(RAKK);
        c.st.run = Some(run);
    }
    fn opens(c: &mut Session, guid: u32) {
        c.window = Some(Window {
            guid,
            item_types: 0,
        });
    }
    fn close_unwanted(c: &mut Session, now: Moment) {
        let mut out = vec![];
        let window = c.window.as_ref().map(|w| w.guid);
        autoplay_close_unwanted_window(&mut c.st, window, now, &mut out);
        c.apply(out);
    }
    asking(&mut c);
    c.stop(NOW);
    assert!(c.window.is_none());
    // The window comes a moment later, and goes.
    opens(&mut c, RAKK);
    close_unwanted(&mut c, NOW + SECOND);
    assert!(c.window.is_none(), "the window was left open");
    // Another counter's window is not the one that was asked for.
    asking(&mut c);
    c.stop(NOW);
    opens(&mut c, 0x8000_0009);
    close_unwanted(&mut c, NOW + SECOND);
    assert!(c.window.is_some(), "somebody else's window was closed");
    c.window = None;
    // Long after the run would have given up on it, a window for that counter
    // is the player's own doing.
    asking(&mut c);
    c.stop(NOW);
    let late = NOW + VENDOR_OPEN_TIMEOUT + SECOND;
    close_unwanted(&mut c, late);
    opens(&mut c, RAKK);
    close_unwanted(&mut c, late);
    assert!(c.window.is_some(), "the player's window was closed");
}

#[test]
fn a_counter_that_buys_none_of_the_loot_is_walked_past_on_a_run_to_sell() {
    let mut c = holtburg();
    c.pea(0x8000_0010, 2_500);
    c.pea(0x8000_0011, 500);
    c.being(RAKK, "Rakk the Peddler", 1.0);
    // A tailor's window: armour and clothing, no components.
    c.window = Some(Window {
        guid: RAKK,
        item_types: ARMOR | CLOTHING,
    });
    assert_eq!(c.to_sell_here(), 0, "Rakk buys peas");
    let mut run = run_to(me(), NOW);
    run.vendor = "Rakk the Peddler".into();
    run.phase = Phase::Appraising;
    run.since = NOW - 30 * SECOND;
    c.st.run = Some(run);
    c.grow_run_step(NOW);
    assert!(
        c.status.contains("Rakk the Peddler buys none of this"),
        "{}",
        c.status
    );
    assert!(c.window.is_none(), "the window was left open");
    // Left alone for at least a run's wait.
    assert_eq!(c.left_alone(me()), Some(RUN_EVERY), "Rakk is the next run's counter");
    // On to a counter that buys peas, of which Holtburg has one.
    let on = c.run();
    assert_eq!(on.vendor, "Archmage Cindrue");
    assert_eq!(on.stops, 2);
    assert_eq!(on.errand, Errand::Sell);
    assert!(c.traveling);

    // A run made to buy stays and shops.
    c.stop(NOW);
    c.window = Some(Window {
        guid: RAKK,
        item_types: ARMOR,
    });
    let mut run = run_to(me(), NOW);
    run.vendor = "Rakk the Peddler".into();
    run.errand = Errand::Buy;
    run.phase = Phase::Appraising;
    run.since = NOW - 30 * SECOND;
    c.st.run = Some(run);
    c.grow_run_step(NOW);
    let stayed = c.run();
    assert_eq!(stayed.vendor, "Rakk the Peddler");
    assert!(matches!(stayed.phase, Phase::Selling));
}

#[test]
fn peas_for_a_counter_send_a_roomy_pack_to_town_once_the_waits_are_up() {
    let mut c = holtburg();
    c.pea(0x8000_0010, 2_500);
    c.pea(0x8000_0011, 2_500);
    let now = NOW;

    // Just back from a run: the wait between runs holds.
    c.st.last_run = Some(now);
    assert!(!c.grow_town_run(now));
    assert!(c.st.held_back.contains("to wait since the last run"), "{}", c.st.held_back);
    // A futile one holds for its own while.
    c.st.run_was_futile = true;
    assert!(!c.grow_town_run(now + FUTILE_RUN_WAIT - SECOND));
    c.st.run_was_futile = false;
    // Waits up, five thousand at face in the pack: off to the one counter in
    // town that buys peas.
    let later = now + RUN_EVERY;
    assert!(c.grow_town_run(later), "{}", c.st.held_back);
    let run = c.run();
    assert_eq!(run.errand, Errand::Sell);
    assert!(run.reason.contains("5000 pyreals' worth"), "{}", run.reason);
    assert_eq!(run.vendor, "Archmage Cindrue");
    assert!(c.traveling);

    // One Lead Pea is not worth the trip on its own...
    c.stop(later);
    c.carried.clear();
    c.pea(0x8000_0012, 500);
    let again = later + RUN_EVERY;
    assert!(!c.grow_town_run(again));
    assert!(
        c.st.held_back.contains("1 thing(s) for a counter, not yet worth the trip"),
        "{}",
        c.st.held_back
    );
    // ...until it has been carried a quarter of an hour.
    let patience = 15 * 60 * SECOND;
    assert!(!c.grow_town_run(again + patience / 2));
    assert!(c.grow_town_run(again + patience), "{}", c.st.held_back);
    let run = c.run();
    assert!(run.reason.contains("carried 15 min"), "{}", run.reason);
    assert_eq!(run.vendor, "Archmage Cindrue");
    // Setting off put the clock back: what comes home unsold is counted afresh.
    assert_eq!(c.st.sale_since, None);
}

#[test]
fn an_urgent_need_comes_before_the_loot_and_the_loot_is_sold_on_the_way() {
    let mut c = holtburg();
    for i in 0..8 {
        c.pea(0x8000_0010 + i, 100);
    }
    c.counted = vec![arrowshafts(0, 10, true)];
    assert!(c.grow_town_run(NOW), "{}", c.st.held_back);
    let run = c.run();
    assert_eq!(run.errand, Errand::Buy);
    assert!(run.reason.contains("short of Bundle of Arrowshafts"), "{}", run.reason);
    assert_eq!(run.vendor, "Fletcher Alnur");
    assert_ne!(run.vendor, "Archmage Cindrue");
    // Done at the bowyer: on to the one counter in town that takes the peas, on
    // the same run.
    c.traveling = false;
    assert!(c.leave(None, NOW), "went home");
    let on = c.run();
    assert_eq!(on.vendor, "Archmage Cindrue");
    assert_eq!(on.errand, Errand::Sell);
    assert_eq!(on.stops, 2);
}

#[test]
fn the_panel_run_with_a_list_and_a_pea_goes_to_the_counter_with_the_list() {
    let mut c = holtburg();
    c.pea(0x8000_0010, 500);
    c.counted = vec![arrowshafts(18, 25, false)];
    assert_eq!(c.counted[0].want, 7);
    c.town_run_by_hand(NOW).expect("no run");
    let run = c.run();
    assert_eq!(run.errand, Errand::Buy);
    assert_eq!(run.vendor, "Fletcher Alnur");
    assert_ne!(run.vendor, "Archmage Cindrue");
    c.traveling = false;
    assert!(c.leave(None, NOW), "went home with the pea");
    let on = c.run();
    assert_eq!(on.vendor, "Archmage Cindrue");
    assert_eq!(on.errand, Errand::Sell);
}

#[test]
fn the_panel_run_starts_even_when_nobody_buys_the_pea() {
    // Nothing on the list, a pea in the pack, and no counter near that takes
    // it: the button still starts a run, to the nearest counter.
    let mut c = holtburg();
    c.pea(0x8000_0010, 500);
    c.town[1].held = true;
    c.town_run_by_hand(NOW).expect("no run");
    let run = c.run();
    assert_eq!(run.errand, Errand::Buy);
    assert_ne!(run.vendor, "Archmage Cindrue");
}

#[test]
fn a_run_to_sell_for_a_light_reason_stays_within_the_town() {
    // One Lead Pea, carried a quarter of an hour, with nobody in the town
    // buying it: not a walk to an archmage three towns over.
    let mut c = holtburg();
    c.pea(0x8000_0010, 500);
    c.town[1].held = true;
    c.st.sale_since = Some(NOW - 15 * 60 * SECOND);
    assert!(!c.grow_town_run(NOW));
    assert!(c.st.run.is_none());
    assert!(
        c.st.held_back
            .contains("nobody within 600 m of a way out buys any of the 1 thing(s)"),
        "{}",
        c.st.held_back
    );
}

#[test]
fn a_party_run_sells_what_this_character_carries_first() {
    let mut c = holtburg();
    c.pea(0x8000_0010, 2_500);
    c.pea(0x8000_0011, 2_500);
    c.team.enabled = true;
    c.team.restock.together = true;
    c.mates = 1;
    // What it tells the party: loot enough for a trip.
    assert!(worth_a_sale_run(&c.carried, None, &c.cfg).is_some());
    c.st.mode = GroupMode::Restocking(Stage::Shopping);
    c.st.mode_because = "+Brynith's pack is full".into();
    assert!(c.grow_town_run(NOW), "{}", c.st.held_back);
    let run = c.run();
    assert_eq!(run.reason, "+Brynith's pack is full");
    assert_eq!(run.errand, Errand::Sell);
    assert_eq!(run.vendor, "Archmage Cindrue");
}

#[test]
fn the_counter_is_stood_at_from_the_use_to_the_window_closing() {
    assert_eq!(
        counter_asked(Some(Phase::Going), Some(2)),
        None,
        "still walking: a window open now is one left over"
    );
    assert_eq!(counter_asked(Some(opening(1)), None), Some(1));
    assert_eq!(counter_asked(Some(Phase::Appraising), Some(1)), Some(1));
    assert_eq!(counter_asked(Some(Phase::Selling), Some(1)), Some(1));
    assert_eq!(counter_asked(None, Some(2)), Some(2), "a window open by hand");
    assert_eq!(counter_asked(None, None), None);
}

#[test]
fn a_counter_that_said_busy_is_asked_again_once_the_cast_lands() {
    let mut c = holtburg();
    let now = NOW;
    a_run_at_cindrue(&mut c, opening(CINDRUE), now);
    // A cast is in the air, and the counter says so.
    c.cast = true;
    c.st.counter_said_busy(now);
    assert!(
        matches!(c.run().phase, Phase::Opening { busy: Some(_), .. }),
        "the refusal was not heard as ours"
    );
    assert_eq!(c.grow_run_step(now), Turn::Waited);
    assert!(c.view().saying.contains("turned the Use away"), "the wait is not said");
    // The counter's own answer frees the slot a moment after the refusal, with
    // the cast still going up: the ask waits a cast's length after the refusal
    // as well as for the slot.
    c.cast = false;
    assert_eq!(c.grow_run_step(now + SECOND), Turn::Waited);
    assert!(c.uses.is_empty(), "the Use went out into the cast");
    // Long past the counter's time, with a cast in the air again: no retry is
    // spent and nothing is given up.
    let late = now + VENDOR_OPEN_TIMEOUT + SECOND;
    c.cast = true;
    assert_eq!(c.grow_run_step(late), Turn::Waited);
    assert!(c.uses.is_empty(), "the Use went out into the cast");
    // The cast lands: the Use goes out again.
    c.cast = false;
    let landed = late;
    assert_eq!(c.grow_run_step(landed), Turn::Acted);
    assert_eq!(c.uses, vec![CINDRUE], "the Use was not sent over");
    let run = c.run();
    assert!(
        matches!(
            run.phase,
            Phase::Opening {
                tries: 1,
                busy: None,
                asked_over: 1,
                ..
            }
        ),
        "the retry was spent, or the refusal kept: {:?}",
        run.phase
    );
    assert_eq!(run.since, landed, "the counter's time did not start over");
    assert_eq!(c.left_alone(me()), None, "the counter was held off as no use");
    // Silence from here on is the counter's own: the ordinary retry, then given
    // up.
    let quiet = landed + VENDOR_OPEN_TIMEOUT + SECOND;
    assert_eq!(c.grow_run_step(quiet), Turn::Acted);
    assert!(matches!(c.run().phase, Phase::Opening { tries: 2, .. }));
    let quieter = quiet + VENDOR_OPEN_TIMEOUT + SECOND;
    c.grow_run_step(quieter);
    assert!(
        c.left_alone(me()).is_some(),
        "a counter that never answered was not held off"
    );
}

#[test]
fn a_window_left_open_from_across_the_town_is_no_counter_at_hand() {
    let mut c = holtburg();
    c.being(CINDRUE, "Archmage Cindrue", 100.0);
    c.window = Some(Window {
        guid: CINDRUE,
        item_types: 0,
    });
    assert_eq!(c.at_hand(), None);
    c.beings.clear();
    c.being(CINDRUE, "Archmage Cindrue", 10.0);
    assert_eq!(c.at_hand().as_deref(), Some("Archmage Cindrue"));
}

#[test]
fn town_runs_switched_off_at_the_counter_close_its_window() {
    let mut c = holtburg();
    a_run_at_cindrue(&mut c, Phase::Selling, NOW);
    c.window = Some(Window {
        guid: CINDRUE,
        item_types: 0,
    });
    assert_eq!(c.at_hand().as_deref(), Some("Archmage Cindrue"));
    c.cfg.town_runs = false;
    c.autoplay_grow(NOW);
    assert!(!c.st.town_run_under_way(), "the run was not let go");
    assert!(c.window.is_none(), "the run's window was left open");
    assert_eq!(c.at_hand(), None, "still at a counter");
}

#[test]
fn a_counter_left_behind_ends_the_visit_and_not_the_walk() {
    let mut c = holtburg();
    a_run_at_cindrue(&mut c, Phase::Selling, NOW);
    c.window = Some(Window {
        guid: CINDRUE,
        item_types: 0,
    });
    let mut out = vec![];
    counter_left_behind(&mut c.st, true, false, NOW, &mut out);
    c.apply(out);
    assert!(!c.st.town_run_under_way(), "the run stood at the counter through the death");
    assert!(c.window.is_none(), "the window was left open");
    assert_eq!(c.at_hand(), None);
    // A run still on its walk is kept: the journey is resumed after.
    c.st.run = Some(run_to(me(), NOW));
    let mut out = vec![];
    counter_left_behind(&mut c.st, false, false, NOW, &mut out);
    assert!(c.st.town_run_under_way(), "a run on its walk was stopped for a death");
}

#[test]
fn the_use_waits_for_a_cast_on_the_walk_in_to_land() {
    let mut c = holtburg();
    a_run_at_cindrue(&mut c, Phase::Going, NOW);
    c.cast = true;
    assert_eq!(c.grow_run_step(NOW), Turn::Waited);
    assert!(c.uses.is_empty(), "the Use went out into the cast");
    assert!(matches!(c.run().phase, Phase::Going));
    // The cast lands: the counter is asked.
    c.cast = false;
    assert_eq!(c.grow_run_step(NOW), Turn::Acted);
    assert_eq!(c.uses, vec![CINDRUE], "the Use was not sent");
    assert!(matches!(c.run().phase, Phase::Opening { .. }));
}

#[test]
fn a_refusal_past_the_busy_asks_is_the_counters_own() {
    let mut c = holtburg();
    let asked = |n: u32| Phase::Opening {
        guid: CINDRUE,
        tries: 1,
        busy: None,
        asked_over: n,
    };
    a_run_at_cindrue(&mut c, asked(BUSY_ASKS), NOW);
    c.st.counter_said_busy(NOW);
    assert!(
        matches!(c.run().phase, Phase::Opening { busy: None, .. }),
        "a refusal past the cap was kept"
    );
    let saying = c.view().saying;
    assert!(saying.contains("waiting for"), "the status still promises an ask: {saying}");
    // Under the cap it is heard.
    a_run_at_cindrue(&mut c, asked(BUSY_ASKS - 1), NOW);
    c.st.counter_said_busy(NOW);
    assert!(matches!(c.run().phase, Phase::Opening { busy: Some(_), .. }));
}

#[test]
fn a_swing_in_the_air_does_not_hold_the_ask() {
    // A swing is no cast: nothing of ours is in the air.
    let mut c = holtburg();
    let busy = Phase::Opening {
        guid: CINDRUE,
        tries: 1,
        busy: Some(NOW),
        asked_over: 0,
    };
    a_run_at_cindrue(&mut c, busy, NOW);
    c.cast = false;
    assert_eq!(c.grow_run_step(NOW + BUSY_REASK), Turn::Acted, "the ask waited on a swing");
    assert_eq!(c.uses, vec![CINDRUE], "the Use was not sent over");
    assert!(matches!(
        c.run().phase,
        Phase::Opening {
            busy: None,
            asked_over: 1,
            ..
        }
    ));
}

#[test]
fn a_run_calls_at_few_counters_and_none_twice() {
    let mut c = holtburg();
    c.pea(0x8000_0010, 500);
    let cindrue = off(me(), 160.0);
    let mut run = run_to(me(), NOW);
    run.stops = STOPS_PER_RUN;
    c.st.run = Some(run.clone());
    assert!(!c.leave(None, NOW), "one counter too many");
    assert!(c.st.run.is_none());
    assert!(c.notes.iter().any(|n| n == "town run done: sold 0 item(s)"), "{:?}", c.notes);
    // A counter called at already is not called at again.
    run.stops = 1;
    run.visited = vec![me(), cindrue];
    c.st.run = Some(run.clone());
    assert!(!c.leave(None, NOW), "called twice at one counter");
    run.visited = vec![me()];
    c.st.run = Some(run);
    assert!(c.leave(None, NOW));
    assert_eq!(c.run().vendor, "Archmage Cindrue");
    assert_eq!(c.run().visited, vec![me(), cindrue]);
}

#[test]
fn the_vendor_of_the_name_comes_before_a_nearer_stranger() {
    let mut c = holtburg();
    c.being(1, "Rakk the Peddler", 5.0);
    c.being(2, "Archmage Cindrue", 20.0);
    c.being(3, "Archmage Cindrue", 30.0);
    let who = |c: &Session, name: &str| vendor_object(&c.beings, name, me()).map(|i| c.beings[i].guid);
    assert_eq!(who(&c, "Archmage Cindrue"), Some(2), "of the name, and the nearer of two");
    assert_eq!(who(&c, "Fletcher Alnur"), Some(1), "nobody of the name: the nearest");
    c.beings.clear();
    c.being(2, "Archmage Cindrue", 60.0);
    assert_eq!(who(&c, "Archmage Cindrue"), None, "too far off to be the one");
}

#[test]
fn a_run_from_the_panel_that_cannot_sell_is_tried_as_one_to_buy() {
    let needs = vec![arrowshafts(18, 25, false)];
    let mut st = State::default();
    let no = || Err("nobody buys it".to_string());
    let next = town_run_started_by_hand(&mut st, needs.clone(), Errand::Sell, no(), false, NOW);
    let HandNext::Start(trip) = next else {
        panic!("{next:?}");
    };
    assert_eq!(trip.needs, needs);
    assert_eq!((trip.errand, trip.within, trip.go_anyway), (Errand::Buy, None, true));
    assert_eq!(trip.reason, ASKED_FOR);
    // That one refused too is the answer.
    let next = town_run_started_by_hand(&mut st, needs.clone(), Errand::Buy, no(), false, NOW);
    assert!(matches!(next, HandNext::Refused(ref why) if why == "nobody buys it"), "{next:?}");
    assert!(!st.by_hand);
    let next = town_run_started_by_hand(&mut st, needs, Errand::Buy, Ok(()), false, NOW);
    assert!(matches!(next, HandNext::Running));
    assert!(st.by_hand);
    assert_eq!(st.hand_stepped, Some(NOW));
}
