//! A run to town asked for, stepped, stopped and read from the vendoring panel.

use crate::clock::{since, spec_since, Moment};
use crate::counters::Errand;
use crate::orders::{deeds, give, note, say, Deed, Doing, Order};
use crate::place::{about, in_fifties, Spot};
use crate::run::{turned_away, Being, VENDOR_REACH};
use crate::single::Single;
use crate::state::{
    counter_asked, driver, spec_counter_asked, spec_driver, spec_window_is_unwanted,
    window_is_unwanted, Driver, NeedsMemory, Phase, Run, State, Unwanted, VENDOR_OPEN_TIMEOUT,
};
use crate::stops::{any_to_buy, is_any_to_buy, window_left, window_no_longer_wanted};
use crate::text::{cat2, cat3, count, counted};
use crate::townrun::{seen_trip, Trip, TripSeen};
use crate::vendors::IN_TOWN;
use crate::wares::Need;
use vstd::prelude::*;
use vstd::string::*;

verus! {

/// A counter the character is near enough to trade at.
#[derive(Clone, Debug)]
pub struct AtHand {
    pub guid: u32,
    pub name: String,
    pub at: Spot,
}

/// The first of some beings with this guid, from `i` on.
pub open spec fn being_at(beings: Seq<Being>, guid: u32, i: int) -> Option<int>
    decreases beings.len() - i,
{
    if i >= beings.len() {
        None
    } else if beings[i].guid == guid {
        Some(i)
    } else {
        being_at(beings, guid, i + 1)
    }
}

/// The counter `guid`, where the character is near enough to trade at it.
pub open spec fn in_reach(me: Option<Spot>, beings: Seq<Being>, guid: u32) -> Option<(String, Spot)> {
    match (me, being_at(beings, guid, 0)) {
        (Some(here), Some(i)) => match beings[i].at {
            Some(p) => if p.spec_flat().spec_away(here).at_most(Single { bits: VENDOR_REACH }) {
                Some((beings[i].name, p.spec_flat()))
            } else {
                None
            },
            None => None,
        },
        _ => None,
    }
}

/// The counter `guid` when the character is still near enough to trade at it:
/// its name and where it stands.
pub fn counter_in_reach(me: Option<Spot>, beings: &[Being], guid: u32) -> (r: Option<(String, Spot)>)
    ensures
        r == in_reach(me, beings@, guid),
{
    let here = match me {
        Some(p) => p,
        None => {
            return None;
        },
    };
    let mut i: usize = 0;
    while i < beings.len()
        invariant
            i <= beings.len(),
            me == Some(here),
            being_at(beings@, guid, 0) == being_at(beings@, guid, i as int),
        decreases beings.len() - i,
    {
        if beings[i].guid == guid {
            return match beings[i].at {
                Some(p) => {
                    let at = p.flat();
                    if at.away(here).le(Single { bits: VENDOR_REACH }) {
                        Some((beings[i].name.clone(), at))
                    } else {
                        None
                    }
                },
                None => None,
            };
        }
        i = i + 1;
    }
    None
}

/// The counter whose window the player has open, when the character is still
/// near enough to trade at it. A window left open from across the town is not a
/// counter at hand.
pub fn open_counter_at_hand(me: Option<Spot>, beings: &[Being], window: Option<u32>) -> (r: Option<
    AtHand,
>)
    ensures
        r == match window {
            Some(guid) => match in_reach(me, beings@, guid) {
                Some((name, at)) => Some(AtHand { guid, name, at }),
                None => None,
            },
            None => None,
        },
{
    match window {
        Some(guid) => match counter_in_reach(me, beings, guid) {
            Some((name, at)) => Some(AtHand { guid, name, at }),
            None => None,
        },
        None => None,
    }
}

/// The phase of the run under way, if there is one.
pub open spec fn phase_of(st: State) -> Option<Phase> {
    match st.run {
        Some(run) => Some(run.phase),
        None => None,
    }
}

/// The counter the character stands at, by name: one it has asked for its
/// window and is still near enough to trade at.
pub fn counter_at_hand(st: &State, me: Option<Spot>, beings: &[Being], window: Option<u32>) -> (r:
    Option<String>)
    ensures
        r == match spec_counter_asked(phase_of(*st), window) {
            Some(guid) => match in_reach(me, beings@, guid) {
                Some((name, _)) => Some(name),
                None => None,
            },
            None => None,
        },
{
    let phase = match &st.run {
        Some(run) => Some(run.phase),
        None => None,
    };
    match counter_asked(phase, window) {
        Some(guid) => match counter_in_reach(me, beings, guid) {
            Some((name, _)) => Some(name),
            None => None,
        },
        None => None,
    }
}

/// Who steps the run to town in progress, if there is one. `drives` says that
/// autoplay's tick steps runs to town.
pub fn town_run_driver(st: &State, drives: bool) -> (r: Option<Driver>)
    ensures
        r == if st.run is Some {
            Some(spec_driver(st.by_hand, drives))
        } else {
            None
        },
{
    if st.run.is_some() {
        Some(driver(st.by_hand, drives))
    } else {
        None
    }
}

/// What asking for a run from the panel sees.
pub struct HandLook {
    /// Autoplay's tick steps runs to town.
    pub drives: bool,
    /// It has something to fight, or something it is casting at.
    pub busy: bool,
    pub room_anywhere: u32,
    pub traveling: bool,
    /// The counter whose window the player has open, near enough to trade at.
    pub at_hand: Option<AtHand>,
    /// How many things are carried for a counter.
    pub to_sell: usize,
}

/// What asking for a run from the panel comes to.
#[derive(Clone, Debug)]
pub enum HandNext {
    /// There is a run, and the panel shows it.
    Running,
    /// None is made, and why.
    Refused(String),
    /// One is to be set out on, and its outcome given to
    /// [`town_run_started_by_hand`].
    Start(Trip),
}

/// Why a run from the panel is made.
pub const ASKED_FOR: &'static str = "asked for from the panel";

/// A run from the panel that is to be set out on, whatever the forecast says.
pub open spec fn panel_trip(needs: Seq<Need>, errand: Errand, within: Option<Single>) -> TripSeen {
    TripSeen { needs, reason: ASKED_FOR@, errand, within, go_anyway: true }
}

fn make_trip(needs: Vec<Need>, errand: Errand, within: Option<Single>) -> (r: Trip)
    ensures
        seen_trip(r) == panel_trip(needs@, errand, within),
{
    Trip { needs, reason: String::from_str(ASKED_FOR), errand, within, go_anyway: true }
}

/// The run made at a counter the player has open.
pub open spec fn is_run_here(c: AtHand, now: Moment, run: Run) -> bool {
    &&& run.visited@ == seq![c.at]
    &&& run.reason@ == ASKED_FOR@
    &&& run == (Run {
        vendor: c.name,
        at: c.at,
        phase: Phase::Opening { guid: c.guid, tries: 1, busy: None, asked_over: 0 },
        since: now,
        last_sell: None,
        town: c.at,
        stops: 1,
        sold: 0,
        reason: run.reason,
        errand: Errand::Buy,
        visited: run.visited,
        walked_on: None,
    })
}

/// What a run asked for from the panel is for: with anything on the list it
/// goes where the list is; with nothing to buy and something to sell it goes to
/// the counter that pays, in the town it is in.
pub open spec fn panel_errand(needs: Seq<Need>, to_sell: nat) -> Errand {
    if !any_to_buy(needs) && to_sell > 0 {
        Errand::Sell
    } else {
        Errand::Buy
    }
}

/// Start a run to town now, from the vendoring panel: the same run autoplay
/// makes, without autoplay's throttles, since the player asked for it. At a
/// counter the player has already opened, the run is made there. Fine when a
/// run is already under way: that run is the one the panel then shows, and one
/// nobody else will step is the panel's now.
#[verifier::rlimit(40)]
pub fn town_run_by_hand(
    st: &mut State,
    memory: &mut NeedsMemory,
    look: HandLook,
    counted: &Vec<Need>,
    now: Moment,
    out: &mut Vec<Order>,
) -> (r: HandNext)
    ensures
        old(st).run is Some ==> {
            let takes = spec_driver(old(st).by_hand, look.drives) == Driver::Hand;
            &&& r is Running
            &&& *final(memory) == *old(memory)
            &&& final(out)@ == old(out)@
            &&& *final(st) == if takes {
                (State { by_hand: true, hand_stepped: Some(now), ..*old(st) })
            } else {
                *old(st)
            }
        },
        old(st).run is None && (look.busy || look.room_anywhere == 0) ==> {
            &&& r is Refused
            &&& r->Refused_0@ == if look.busy {
                "busy fighting"@
            } else {
                "no free slot for a counter's money"@
            }
            &&& *final(st) == *old(st)
            &&& *final(memory) == *old(memory)
            &&& final(out)@ == old(out)@
        },
        old(st).run is None && !look.busy && look.room_anywhere > 0 ==> {
            let needs = old(memory).needs_by(now, counted@);
            let free = State { bound: None, bound_since: None, ..*old(st) };
            let stop = if look.traveling {
                seq![Deed::CancelTravel]
            } else {
                seq![]
            };
            &&& old(memory).remembers(now, counted@, *final(memory))
            &&& match look.at_hand {
                Some(c) => {
                    &&& r is Running
                    &&& final(st).run is Some
                    &&& is_run_here(c, now, final(st).run->0)
                    &&& final(st).needs@ == needs
                    &&& *final(st) == (State {
                        needs: final(st).needs,
                        window_unwanted: None,
                        run: final(st).run,
                        by_hand: !look.drives,
                        hand_stepped: if look.drives {
                            None
                        } else {
                            Some(now)
                        },
                        ..free
                    })
                    &&& deeds(final(out)@) == deeds(old(out)@) + stop + seq![
                        Deed::Say(
                            Doing::Shopping,
                            ASKED_FOR@ + ": at "@ + c.name@,
                        ),
                    ]
                },
                None => {
                    let errand = panel_errand(needs, look.to_sell as nat);
                    &&& r is Start
                    &&& seen_trip(r->Start_0) == panel_trip(
                        needs,
                        errand,
                        if errand == Errand::Sell {
                            Some(Single { bits: IN_TOWN })
                        } else {
                            None
                        },
                    )
                    &&& *final(st) == free
                    &&& deeds(final(out)@) == deeds(old(out)@) + stop
                },
            }
        },
        r is Refused <==> old(st).run is None && (look.busy || look.room_anywhere == 0),
        r is Start <==> old(st).run is None && !look.busy && look.room_anywhere > 0 && look.at_hand
            is None,
        r is Start ==> r->Start_0.go_anyway && r->Start_0.within == if r->Start_0.errand
            == Errand::Sell {
            Some(Single { bits: 0x4416_0000 })
        } else {
            None
        },
{
    if st.run.is_some() {
        if driver(st.by_hand, look.drives) == Driver::Hand {
            st.by_hand = true;
            st.hand_stepped = Some(now);
        }
        return HandNext::Running;
    }
    if look.busy {
        return HandNext::Refused(String::from_str("busy fighting"));
    }
    if look.room_anywhere == 0 {
        return HandNext::Refused(String::from_str("no free slot for a counter's money"));
    }
    let ghost stop = if look.traveling {
        seq![Deed::CancelTravel]
    } else {
        seq![]
    };
    if look.traveling {
        give(out, Order::CancelTravel);
    }
    assert(deeds(out@) =~= deeds(old(out)@) + stop);
    st.bound = None;
    st.bound_since = None;
    let needs = memory.needs_now(now, counted);
    match look.at_hand {
        Some(c) => {
            let reason = String::from_str(ASKED_FOR);
            let text = cat3(reason.as_str(), ": at ", c.name.as_str());
            let ghost said = Deed::Say(Doing::Shopping, text@);
            say(out, Doing::Shopping, text);
            assert(deeds(out@) =~= deeds(old(out)@) + stop + seq![said]);
            st.needs = needs;
            st.window_unwanted = None;
            let mut visited: Vec<Spot> = Vec::new();
            visited.push(c.at);
            assert(visited@ =~= seq![c.at]);
            st.run = Some(
                Run {
                    vendor: c.name,
                    at: c.at,
                    phase: Phase::Opening { guid: c.guid, tries: 1, busy: None, asked_over: 0 },
                    since: now,
                    last_sell: None,
                    town: c.at,
                    stops: 1,
                    sold: 0,
                    reason,
                    errand: Errand::Buy,
                    visited,
                    walked_on: None,
                },
            );
            taken_in_hand(st, look.drives, now);
            HandNext::Running
        },
        None => {
            let errand = if !is_any_to_buy(needs.as_slice()) && look.to_sell > 0 {
                Errand::Sell
            } else {
                Errand::Buy
            };
            let within = if errand == Errand::Sell {
                Some(Single { bits: IN_TOWN })
            } else {
                None
            };
            HandNext::Start(make_trip(needs, errand, within))
        },
    }
}

/// A run asked for from the panel has been set out on. Who steps it depends on
/// whether autoplay runs town runs: when it does, the run goes at its pace;
/// when it does not, the panel steps it.
pub fn taken_in_hand(st: &mut State, drives: bool, now: Moment)
    ensures
        *final(st) == (State {
            by_hand: !drives,
            hand_stepped: if drives {
                None
            } else {
                Some(now)
            },
            ..*old(st)
        }),
{
    st.by_hand = !drives;
    st.hand_stepped = if drives {
        None
    } else {
        Some(now)
    };
}

/// Setting out on a run from the panel, with these `needs` and for this
/// `errand`, came to `started`. Where it could not be set out on because nobody
/// near buys what is carried, the player still asked for a run, and one to buy
/// has a counter to fall back on, the nearest, however far: that is to be set out
/// on next.
pub fn town_run_started_by_hand(
    st: &mut State,
    needs: Vec<Need>,
    errand: Errand,
    started: Result<(), String>,
    drives: bool,
    now: Moment,
) -> (r: HandNext)
    ensures
        match started {
            Ok(_) => {
                &&& r is Running
                &&& *final(st) == (State {
                    by_hand: !drives,
                    hand_stepped: if drives {
                        None
                    } else {
                        Some(now)
                    },
                    ..*old(st)
                })
            },
            Err(why) => {
                &&& *final(st) == *old(st)
                &&& match errand {
                    Errand::Sell => r is Start && seen_trip(r->Start_0) == panel_trip(
                        needs@,
                        Errand::Buy,
                        None,
                    ),
                    Errand::Buy => r == HandNext::Refused(why),
                }
            },
        },
{
    match started {
        Ok(_) => {
            taken_in_hand(st, drives, now);
            HandNext::Running
        },
        Err(why) => match errand {
            Errand::Sell => HandNext::Start(make_trip(needs, Errand::Buy, None)),
            Errand::Buy => HandNext::Refused(why),
        },
    }
}

/// Whether the panel's turn of a run goes ahead: not with no run in progress.
/// The run is the panel's from here on, whoever started it, and takes the same
/// turn autoplay's tick takes.
pub fn town_run_step_by_hand(st: &mut State, now: Moment) -> (r: bool)
    ensures
        r == (old(st).run is Some),
        *final(st) == if r {
            (State { by_hand: true, hand_stepped: Some(now), ..*old(st) })
        } else {
            *old(st)
        },
{
    if st.run.is_some() {
        st.by_hand = true;
        st.hand_stepped = Some(now);
        true
    } else {
        false
    }
}

/// What is remembered of a run that was stopped.
pub open spec fn run_stopped(st: State, run: Run, open: bool, now: Moment, needs: Vec<Need>) -> State {
    State {
        run: None,
        by_hand: false,
        needs,
        after_out: None,
        last_run: Some(now),
        window_unwanted: window_left(run, open, st.window_unwanted),
        ..st
    }
}

/// What stopping a run asks for.
pub open spec fn stop_deeds(vendor: Seq<char>, open: bool, following: bool) -> Seq<Deed> {
    let shut = if open {
        seq![Deed::CloseVendor]
    } else {
        seq![]
    };
    let stay = if following {
        seq![Deed::StopFollowing]
    } else {
        seq![]
    };
    seq![Deed::NewShop] + shut + seq![Deed::CancelTravel] + stay + seq![
        Deed::Note("the run to "@ + vendor + " was stopped"@),
    ]
}

/// End the run to town in progress and leave the character as it stands: the
/// counter closed, the walk ended, nothing left waiting for a next turn.
/// Autoplay waits its usual while before starting another, as after any run.
pub fn town_run_stop(
    st: &mut State,
    open: bool,
    following: bool,
    now: Moment,
    out: &mut Vec<Order>,
)
    ensures
        old(st).run is None ==> *final(st) == *old(st) && final(out)@ == old(out)@,
        old(st).run is Some ==> {
            let run = old(st).run->0;
            &&& final(st).needs@.len() == 0
            &&& *final(st) == run_stopped(*old(st), run, open, now, final(st).needs)
            &&& deeds(final(out)@) == deeds(old(out)@) + stop_deeds(run.vendor@, open, following)
        },
{
    let run = match st.run.take() {
        Some(run) => run,
        None => {
            return;
        },
    };
    st.by_hand = false;
    st.needs.clear();
    st.after_out = None;
    give(out, Order::NewShop);
    st.last_run = Some(now);
    window_no_longer_wanted(st, run.phase, run.since, open);
    if open {
        give(out, Order::CloseVendor);
    }
    give(out, Order::CancelTravel);
    if following {
        give(out, Order::StopFollowing);
    }
    note(out, cat3("the run to ", run.vendor.as_str(), " was stopped"));
    assert(deeds(out@) =~= deeds(old(out)@) + stop_deeds(run.vendor@, open, following));
}

/// A run is past its walk.
pub open spec fn past_the_walk(st: State) -> bool {
    st.run is Some && st.run->0.phase != Phase::Going
}

/// The character has died at a counter: it wakes at the lifestone, and the
/// visit is over. A run past its walk is stopped, and a window is closed: a dead
/// character trades at nothing.
pub fn counter_left_behind(
    st: &mut State,
    open: bool,
    following: bool,
    now: Moment,
    out: &mut Vec<Order>,
)
    ensures
        past_the_walk(*old(st)) ==> {
            let run = old(st).run->0;
            &&& final(st).needs@.len() == 0
            &&& *final(st) == run_stopped(*old(st), run, open, now, final(st).needs)
            &&& deeds(final(out)@) == deeds(old(out)@) + stop_deeds(run.vendor@, open, following)
        },
        !past_the_walk(*old(st)) ==> {
            &&& *final(st) == *old(st)
            &&& deeds(final(out)@) == if open {
                deeds(old(out)@).push(Deed::CloseVendor)
            } else {
                deeds(old(out)@)
            }
        },
{
    let past = match &st.run {
        Some(run) => run.phase != Phase::Going,
        None => false,
    };
    if past {
        town_run_stop(st, open, following, now, out);
    } else if open {
        give(out, Order::CloseVendor);
    }
}

/// What is remembered of a window no run wants any longer.
pub open spec fn still_unwanted(st: State, window: Option<u32>, now: Moment) -> Option<Unwanted> {
    match st.window_unwanted {
        None => None,
        Some(u) => if (window is Some && spec_window_is_unwanted(st.window_unwanted, window->0, now))
            || spec_since(now, u.asked) > VENDOR_OPEN_TIMEOUT {
            None
        } else {
            Some(u)
        },
    }
}

/// Close a counter's window that opened for a run already over. Once a frame,
/// whether or not autoplay is on. What opens once the time is up is the
/// player's.
pub fn autoplay_close_unwanted_window(
    st: &mut State,
    window: Option<u32>,
    now: Moment,
    out: &mut Vec<Order>,
)
    ensures
        *final(st) == (State {
            window_unwanted: still_unwanted(*old(st), window, now),
            ..*old(st)
        }),
        ({
            let closes = window is Some && spec_window_is_unwanted(
                old(st).window_unwanted,
                window->0,
                now,
            );
            deeds(final(out)@) == if closes {
                deeds(old(out)@) + seq![
                    Deed::CloseVendor,
                    Deed::Note(
                        "closed a counter's window that opened after the run to it ended"@,
                    ),
                ]
            } else {
                deeds(old(out)@)
            }
        }),
{
    let unwanted = match st.window_unwanted {
        Some(u) => u,
        None => {
            return;
        },
    };
    if let Some(vendor) = window {
        if window_is_unwanted(Some(unwanted), vendor, now) {
            st.window_unwanted = None;
            give(out, Order::CloseVendor);
            note(
                out,
                String::from_str(
                    "closed a counter's window that opened after the run to it ended",
                ),
            );
            assert(deeds(out@) =~= deeds(old(out)@) + seq![
                Deed::CloseVendor,
                Deed::Note("closed a counter's window that opened after the run to it ended"@),
            ]);
            return;
        }
    }
    if since(now, unwanted.asked) > VENDOR_OPEN_TIMEOUT {
        st.window_unwanted = None;
    }
}

/// A run to town as the vendoring panel shows it: read, not moved on.
#[derive(Clone, Debug)]
pub struct TownRunView {
    pub vendor: String,
    /// Why the run was made.
    pub reason: String,
    /// Which counter of the run this is, counting from one.
    pub stop: u32,
    pub phase: String,
    /// What the shopping rules would do next, once selling.
    pub next: Option<String>,
    /// How the run puts what it is doing or waiting on, whatever the phase.
    pub saying: String,
    /// Sold on the whole run, this counter included.
    pub sold: u32,
    /// Handed over at this counter and not yet answered for.
    pub waiting: usize,
    pub driver: Driver,
}

/// What the shopping rules would say if asked now: what they would do next,
/// what they would say, what they have sold at this counter, and how much of
/// what was handed over is not yet answered for.
#[derive(Clone, Debug)]
pub struct Peek {
    pub act: Option<String>,
    pub saying: String,
    pub sold: u32,
    pub waiting: usize,
}

/// What the panel calls a phase.
pub open spec fn phase_name(phase: Phase) -> Seq<char> {
    match phase {
        Phase::Going => "Going"@,
        Phase::Opening { .. } => "Opening"@,
        Phase::Appraising => "Appraising"@,
        Phase::Selling => "Selling"@,
    }
}

/// What the panel says of a run.
pub open spec fn phase_saying(run: Run, me: Option<Spot>, peek: Seq<char>) -> Seq<char> {
    match run.phase {
        Phase::Going => "going to "@ + run.vendor@ + match me {
            Some(here) => " ("@ + (counted(in_fifties(run.at.spec_away(here)) as nat) + " m"@)
                + ")"@,
            None => seq![],
        },
        Phase::Opening { tries, busy, .. } => if busy is Some {
            turned_away(run.vendor@)
        } else {
            "waiting for "@ + run.vendor@ + " to open its window (try "@ + counted(tries as nat)
                + ")"@
        },
        Phase::Appraising => "looking over the pack, then putting stacks together"@,
        Phase::Selling => peek,
    }
}

/// The run to town in progress as the vendoring panel shows it, read without
/// moving it on: the phase, and what would happen next. `peek` is what a copy of
/// the shopping rules says, so that asking does not hand anything over.
pub fn town_run_view(st: &State, me: Option<Spot>, drives: bool, peek: Peek) -> (r: Option<
    TownRunView,
>)
    requires
        st.run is Some ==> st.run->0.sold + peek.sold <= u32::MAX,
    ensures
        r is Some <==> st.run is Some,
        r is Some ==> {
            let run = st.run->0;
            let v = r->0;
            &&& v.vendor == run.vendor
            &&& v.reason == run.reason
            &&& v.stop == run.stops
            &&& v.phase@ == phase_name(run.phase)
            &&& v.next == if run.phase == Phase::Selling {
                peek.act
            } else {
                None
            }
            &&& v.saying@ == phase_saying(run, me, peek.saying@)
            &&& v.sold == run.sold + peek.sold
            &&& v.waiting == peek.waiting
            &&& v.driver == spec_driver(st.by_hand, drives)
        },
{
    match &st.run {
        None => None,
        Some(run) => {
            let (phase, next, saying) = match run.phase {
                Phase::Going => {
                    let mut text = cat2("going to ", run.vendor.as_str());
                    let ghost first = text@;
                    match me {
                        Some(here) => {
                            let far = about(run.at.away(here));
                            let part = cat3(" (", far.as_str(), ")");
                            text.append(part.as_str());
                        },
                        None => {
                            assert(text@ =~= first + Seq::<char>::empty());
                        },
                    }
                    ("Going", None, text)
                },
                Phase::Opening { tries, busy, .. } => {
                    let text = if busy.is_some() {
                        cat2(
                            run.vendor.as_str(),
                            " turned the Use away while a cast was in the air; asking again once it lands",
                        )
                    } else {
                        let n = count(tries as u128);
                        let first = cat3(
                            "waiting for ",
                            run.vendor.as_str(),
                            " to open its window (try ",
                        );
                        cat3(first.as_str(), n.as_str(), ")")
                    };
                    ("Opening", None, text)
                },
                Phase::Appraising => (
                    "Appraising",
                    None,
                    String::from_str("looking over the pack, then putting stacks together"),
                ),
                Phase::Selling => ("Selling", peek.act, peek.saying),
            };
            Some(
                TownRunView {
                    vendor: run.vendor.clone(),
                    reason: run.reason.clone(),
                    stop: run.stops,
                    phase: String::from_str(phase),
                    next,
                    saying,
                    sold: run.sold + peek.sold,
                    waiting: peek.waiting,
                    driver: driver(st.by_hand, drives),
                },
            )
        },
    }
}

} // verus!
