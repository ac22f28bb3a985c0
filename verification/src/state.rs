//! What the growth rules remember from one look to the next.

use crate::clock::{since, spec_since, Moment, Span};
use crate::counters::Errand;
use crate::logistics::GroupMode;
use crate::place::Spot;
use crate::spending::{Memory, Spending};
use crate::wares::{copy_needs, Need};
use vstd::prelude::*;
use vstd::string::*;

verus! {

/// A vendor that does not answer a Use in this long is tried once more, then
/// left.
pub const VENDOR_OPEN_TIMEOUT: u64 = 12_000_000_000;

/// How long after a counter turned the Use away as busy it is asked over, once
/// nothing of ours is in flight: it comfortably outlasts a cast's recoil.
pub const BUSY_REASK: u64 = 3_000_000_000;

/// How many times a Use turned away as busy is sent over before the refusals
/// are taken for the counter's own.
pub const BUSY_ASKS: u32 = 3;

/// How long the panel can leave a run before it counts as having let go of it.
pub const HAND_HOLD: u64 = 1_000_000_000;

/// How soon after planning a walk again it may be planned once more.
pub const WALK_ON_EVERY: u64 = 5_000_000_000;

/// Least time between two town runs.
pub const RUN_EVERY: u64 = 480_000_000_000;

/// How long to leave it after a trip to town that bought and sold nothing.
pub const FUTILE_RUN_WAIT: u64 = 300_000_000_000;

/// What the character is short of is worked out at most this often while it
/// waits for something to do.
pub const NEEDS_EVERY: u64 = 5_000_000_000;

/// Where a town run stands.
#[derive(Clone, Copy, Debug, PartialEq, Eq, Structural)]
pub enum Phase {
    /// Walking to the vendor.
    Going,
    /// The vendor was used; waiting for its stock. `busy` is when the counter
    /// last turned the Use away for our own doing, and `asked_over` how many
    /// times the Use has gone out again for that.
    Opening { guid: u32, tries: u32, busy: Option<Moment>, asked_over: u32 },
    /// The pack's items are being appraised before the sale.
    Appraising,
    /// Selling.
    Selling,
}

/// A run to town in progress.
#[derive(Clone, Debug)]
pub struct Run {
    pub vendor: String,
    pub at: Spot,
    pub phase: Phase,
    /// When the phase began.
    pub since: Moment,
    pub last_sell: Option<Moment>,
    /// Where the run started: the fallback for when the character's own
    /// position is not known.
    pub town: Spot,
    pub stops: u32,
    /// How many items were sold at all the stops so far.
    pub sold: u32,
    /// Why the run was made.
    pub reason: String,
    /// What it is for: to sell, or to buy.
    pub errand: Errand,
    /// The vendors already called on this run, by position.
    pub visited: Vec<Spot>,
    /// When the walk to this counter was last planned again after something
    /// broke it off.
    pub walked_on: Option<Moment>,
}

/// A hunting ground: its landblock, its middle, and what it is called.
#[derive(Clone, Debug)]
pub struct Ground {
    pub landblock: u32,
    pub at: Spot,
    pub name: String,
}

/// What one turn of a run to town came to.
///
/// Autoplay only asks whether the run goes on. The vendoring panel's Step
/// carries the run on until one act has gone out and then holds. An act is
/// something sent to the world, or a walk on to the next counter. Waiting, and
/// moving from one phase to the next without sending anything, are not.
#[derive(Clone, Copy, Debug, PartialEq, Eq, Structural)]
pub enum Turn {
    /// Something went out.
    Acted,
    /// Nothing did; the world has not answered yet.
    Waited,
    /// The run is over.
    Over,
}

impl Turn {
    /// True while the run goes on, which is all autoplay's tick asks.
    pub fn goes_on(self) -> (r: bool)
        ensures
            r == (self != Turn::Over),
    {
        self != Turn::Over
    }

    pub open spec fn spec_after_stop(goes_on: bool) -> Turn {
        if goes_on {
            Turn::Acted
        } else {
            Turn::Over
        }
    }

    /// What leaving a counter came to: a walk to the next one begun, or the run
    /// over.
    pub fn after_stop(goes_on: bool) -> (r: Turn)
        ensures
            r == Turn::spec_after_stop(goes_on),
    {
        if goes_on {
            Turn::Acted
        } else {
            Turn::Over
        }
    }
}

/// Who steps the run to town in progress.
#[derive(Clone, Copy, Debug, PartialEq, Eq, Structural)]
pub enum Driver {
    /// Autoplay's own tick, at its own pace.
    Autoplay,
    /// The vendoring panel, one act or one frame at a time.
    Hand,
}

/// What a run waiting on a counter's window does next.
#[derive(Clone, Copy, Debug, PartialEq, Eq, Structural)]
pub enum OnOpening {
    /// The window is open: on to the pack.
    Opened,
    /// Nothing yet.
    Wait,
    /// Send the Use over. The last one was turned away for our own doing, so
    /// this is not counted against the counter.
    AskOver,
    /// Ask again after the counter's silence, counted against it.
    AskAgain,
    /// The counter will not open.
    GiveUp,
}

pub open spec fn spec_on_opening(
    open: bool,
    busy: Option<Span>,
    ours_in_flight: bool,
    asked_over: u32,
    elapsed: Span,
    tries: u32,
) -> OnOpening {
    if open {
        OnOpening::Opened
    } else if busy is Some && asked_over < BUSY_ASKS {
        if ours_in_flight || busy->0 < BUSY_REASK {
            OnOpening::Wait
        } else {
            OnOpening::AskOver
        }
    } else if elapsed <= VENDOR_OPEN_TIMEOUT {
        OnOpening::Wait
    } else if tries < 2 {
        OnOpening::AskAgain
    } else {
        OnOpening::GiveUp
    }
}

/// What a run waiting on a counter's window does next.
///
/// A Use turned away as busy (`busy`, how long ago) is sent over once nothing
/// of ours is in flight and a recoil's length has passed, without spending the
/// retry or the counter's patience on it. Only silence and the counter's own
/// refusal give it up, and a counter that keeps saying busy past
/// [`BUSY_ASKS`] sends is taken at its word.
pub fn on_opening(
    open: bool,
    busy: Option<Span>,
    ours_in_flight: bool,
    asked_over: u32,
    elapsed: Span,
    tries: u32,
) -> (r: OnOpening)
    ensures
        r == spec_on_opening(open, busy, ours_in_flight, asked_over, elapsed, tries),
{
    if open {
        return OnOpening::Opened;
    }
    if let Some(ago) = busy {
        if asked_over < BUSY_ASKS {
            return if ours_in_flight || ago < BUSY_REASK {
                OnOpening::Wait
            } else {
                OnOpening::AskOver
            };
        }
    }
    if elapsed <= VENDOR_OPEN_TIMEOUT {
        OnOpening::Wait
    } else if tries < 2 {
        OnOpening::AskAgain
    } else {
        OnOpening::GiveUp
    }
}

/// A counter that never opens is not waited on for ever: once its time is up it
/// is asked again or given up, unless a busy refusal of ours is still to be
/// made good.
pub proof fn law_a_closed_counter_is_given_up(
    busy: Option<Span>,
    ours_in_flight: bool,
    asked_over: u32,
    elapsed: Span,
    tries: u32,
)
    requires
        elapsed > VENDOR_OPEN_TIMEOUT,
        busy is None || asked_over >= BUSY_ASKS,
    ensures
        ({
            let r = spec_on_opening(false, busy, ours_in_flight, asked_over, elapsed, tries);
            (tries < 2 ==> r == OnOpening::AskAgain) && (tries >= 2 ==> r == OnOpening::GiveUp)
        }),
{
}

pub open spec fn spec_counter_asked(phase: Option<Phase>, window: Option<u32>) -> Option<u32> {
    match phase {
        Some(Phase::Going) => None,
        Some(Phase::Opening { guid, .. }) => Some(guid),
        _ => window,
    }
}

/// The counter the character has asked for its window, if any: the one a run
/// is asking, or the one whose window is open. A window open while a run is
/// still walking is one left over from before it, not a counter at hand.
pub fn counter_asked(phase: Option<Phase>, window: Option<u32>) -> (r: Option<u32>)
    ensures
        r == spec_counter_asked(phase, window),
{
    match phase {
        Some(Phase::Going) => None,
        Some(Phase::Opening { guid, .. }) => Some(guid),
        Some(Phase::Appraising) | Some(Phase::Selling) | None => window,
    }
}

pub open spec fn spec_driver(by_hand: bool, autoplay_drives: bool) -> Driver {
    if by_hand || !autoplay_drives {
        Driver::Hand
    } else {
        Driver::Autoplay
    }
}

/// Who steps a run to town: the panel when it asked for the run, or when
/// autoplay is not running town runs and so would never step it; autoplay
/// otherwise.
pub fn driver(by_hand: bool, autoplay_drives: bool) -> (r: Driver)
    ensures
        r == spec_driver(by_hand, autoplay_drives),
{
    if by_hand || !autoplay_drives {
        Driver::Hand
    } else {
        Driver::Autoplay
    }
}

pub open spec fn spec_hand_has_let_go(stepped: Option<Moment>, now: Moment) -> bool {
    stepped is None || spec_since(now, stepped->0) >= HAND_HOLD
}

/// Whether the panel has let go of the run it was driving: nothing has stepped
/// it for [`HAND_HOLD`].
pub fn hand_has_let_go(stepped: Option<Moment>, now: Moment) -> (r: bool)
    ensures
        r == spec_hand_has_let_go(stepped, now),
{
    match stepped {
        Some(t) => since(now, t) >= HAND_HOLD,
        None => true,
    }
}

/// A counter asked to open its window by a run that then ended before it did,
/// and when.
#[derive(Clone, Copy, Debug, PartialEq, Eq, Structural)]
pub struct Unwanted {
    pub guid: u32,
    pub asked: Moment,
}

pub open spec fn spec_window_is_unwanted(
    unwanted: Option<Unwanted>,
    vendor: u32,
    now: Moment,
) -> bool {
    unwanted is Some && unwanted->0.guid == vendor && spec_since(now, unwanted->0.asked)
        <= VENDOR_OPEN_TIMEOUT
}

/// Whether a window opened for `vendor` is one a run stopped waiting for: it
/// was asked for by a run that ended before it came, and it has come within the
/// time the run would have waited. Later than that it is more likely the
/// player's own doing, and is left be.
pub fn window_is_unwanted(unwanted: Option<Unwanted>, vendor: u32, now: Moment) -> (r: bool)
    ensures
        r == spec_window_is_unwanted(unwanted, vendor, now),
{
    match unwanted {
        Some(u) => u.guid == vendor && since(now, u.asked) <= VENDOR_OPEN_TIMEOUT,
        None => false,
    }
}

pub open spec fn spec_wait_between_runs(party_restocking: bool, futile: bool) -> Span {
    if !party_restocking {
        RUN_EVERY
    } else if futile {
        FUTILE_RUN_WAIT
    } else {
        0
    }
}

/// How long after one run the next waits: `party_restocking` when the party has
/// agreed to shop, `futile` when the last run bought and sold nothing.
pub fn wait_between_runs(party_restocking: bool, futile: bool) -> (r: Span)
    ensures
        r == spec_wait_between_runs(party_restocking, futile),
{
    if !party_restocking {
        RUN_EVERY
    } else if futile {
        FUTILE_RUN_WAIT
    } else {
        0
    }
}

/// What a run on its way to a counter does with no journey under way.
#[derive(Clone, Copy, Debug, PartialEq, Eq, Structural)]
pub enum OnTheWay {
    /// Near enough to go up to the counter.
    There,
    /// Something else broke the journey off and still has the character.
    Wait,
    /// Something else broke the journey off and is done: set off again.
    WalkOn,
    /// The journey ended by itself short of the counter.
    Short,
}

pub open spec fn spec_on_the_way(there: bool, broken_off: bool, busy: bool, lately: bool) -> OnTheWay {
    if there {
        OnTheWay::There
    } else if !broken_off {
        OnTheWay::Short
    } else if busy || lately {
        OnTheWay::Wait
    } else {
        OnTheWay::WalkOn
    }
}

/// What a walk to a counter or to a hunting ground does with no journey under
/// way. `there` says it is near enough already, `broken_off` that the last
/// journey was ended by something else the character went to do, `busy` that it
/// is still doing it, and `lately` that the walk was planned again less than
/// [`WALK_ON_EVERY`] ago.
///
/// A walk broken off is walked on; one that ended by itself short of the
/// counter is one that cannot get there.
pub fn on_the_way(there: bool, broken_off: bool, busy: bool, lately: bool) -> (r: OnTheWay)
    ensures
        r == spec_on_the_way(there, broken_off, busy, lately),
{
    if there {
        OnTheWay::There
    } else if !broken_off {
        OnTheWay::Short
    } else if busy || lately {
        OnTheWay::Wait
    } else {
        OnTheWay::WalkOn
    }
}

pub open spec fn spec_road_under_way(trip: Option<bool>, resumed: Option<bool>) -> bool {
    trip == Some(false) || resumed == Some(false)
}

/// Whether a journey that is not one of the growth rules' errands still has the
/// character on its way somewhere: a road is under way, or one put down for a
/// fight is waiting to be picked up again. `trip` is the journey under way, if
/// any, and whether it is about the character's own ground; `resumed` the same
/// for the journey remembered for after the fight.
///
/// A walk about the ground is never a road.
pub fn road_under_way(trip: Option<bool>, resumed: Option<bool>) -> (r: bool)
    ensures
        r == spec_road_under_way(trip, resumed),
{
    let road = match trip {
        Some(about) => !about,
        None => false,
    };
    let later = match resumed {
        Some(about) => !about,
        None => false,
    };
    road || later
}

/// What the character was last found short of, and when.
#[derive(Clone, Debug)]
pub struct NeedsSeen {
    pub when: Moment,
    pub needs: Vec<Need>,
}

/// What the character was last found short of, if it ever was looked at.
#[derive(Clone, Debug)]
pub struct NeedsMemory {
    pub seen: Option<NeedsSeen>,
}

impl NeedsMemory {
    /// What the character is short of was worked out lately enough to go by.
    pub open spec fn needs_fresh(self, now: Moment) -> bool {
        self.seen is Some && spec_since(now, self.seen->0.when) < NEEDS_EVERY
    }

    /// What the character is short of, as it is gone by: as last worked out,
    /// or as just counted where that is too long ago.
    pub open spec fn needs_by(self, now: Moment, counted: Seq<Need>) -> Seq<Need> {
        if self.needs_fresh(now) {
            self.seen->0.needs@
        } else {
            counted
        }
    }

    /// `after` is what is remembered once the needs have been asked for.
    pub open spec fn remembers(self, now: Moment, counted: Seq<Need>, after: NeedsMemory) -> bool {
        if self.needs_fresh(now) {
            after == self
        } else {
            after.seen is Some && after.seen->0.when == now && after.seen->0.needs@ == counted
        }
    }

    /// Whether what the character is short of is to be counted again: at most
    /// once every [`NEEDS_EVERY`].
    pub fn needs_due(&self, now: Moment) -> (r: bool)
        ensures
            r == !self.needs_fresh(now),
    {
        match &self.seen {
            Some(n) => since(now, n.when) >= NEEDS_EVERY,
            None => true,
        }
    }

    /// What the character is short of, worked out afresh at most once every
    /// [`NEEDS_EVERY`]; `counted` is what it is short of as just counted, which
    /// is read only when it is due.
    pub fn needs_now(&mut self, now: Moment, counted: &Vec<Need>) -> (r: Vec<Need>)
        ensures
            r@ == old(self).needs_by(now, counted@),
            old(self).remembers(now, counted@, *final(self)),
    {
        if self.needs_due(now) {
            self.seen = Some(NeedsSeen { when: now, needs: copy_needs(counted) });
            copy_needs(counted)
        } else {
            match &self.seen {
                Some(n) => copy_needs(&n.needs),
                None => Vec::new(),
            }
        }
    }
}

/// A ground not to go to for a while, and since when.
#[derive(Clone, Copy, Debug, PartialEq, Eq, Structural)]
pub struct Skipped {
    pub landblock: u32,
    pub since: Moment,
}

/// The running state of the growth rules.
#[derive(Clone, Debug)]
pub struct State {
    /// What the party is doing, as this session last worked it out from the
    /// roster.
    pub mode: GroupMode,
    /// When the mode last changed, and why, for the log and the UI.
    pub mode_since: Option<Moment>,
    pub mode_because: String,
    /// This character has given the quartermaster its sale loot and its order.
    /// Cleared whenever the mode changes.
    pub handed_over: bool,
    /// Something was actually bought on the run in progress.
    pub bought_anything: bool,
    /// How many trips the quartermaster has made this time out.
    pub round: u32,
    /// The character came home from a counter too laden to be handed anything.
    pub too_heavy: bool,
    /// The last thing the shopping rules said they were doing.
    pub last_saying: String,
    /// The character is underground.
    pub in_dungeon: bool,
    /// The last run to town ended without buying or selling anything.
    pub run_was_futile: bool,
    /// The character has given up, in town: out of money, with nothing left to
    /// sell and too short of supplies to go on hunting.
    pub stopped_in_town: bool,
    /// When it last looked to see whether that had changed.
    pub stopped_looked: Option<Moment>,
    /// Why no run to town was started, as last logged.
    pub held_back: String,
    /// Since when the pack has held loot for a counter, `None` while it holds
    /// none.
    pub sale_since: Option<Moment>,
    /// What spending experience remembers.
    pub spending: Spending,
    /// How many times the character has walked about the ground it is on
    /// looking for something to fight.
    pub roams: u32,
    /// Since when there has been nothing here to fight, `None` while there is.
    pub quiet_since: Option<Moment>,
    /// The ground being travelled to, and since when.
    pub bound: Option<Ground>,
    pub bound_since: Option<Moment>,
    /// When the walk to that ground was last planned again after something else
    /// broke it off.
    pub bound_walked_on: Option<Moment>,
    /// The ground the character hunts on, once it has arrived.
    pub hunting_at: Option<u32>,
    /// Grounds not to go to for a while.
    pub skip: Vec<Skipped>,
    pub run: Option<Run>,
    /// The run in progress was asked for from the vendoring panel and is
    /// stepped from there, not by autoplay's tick.
    pub by_hand: bool,
    /// When the panel last stepped the run.
    pub hand_stepped: Option<Moment>,
    /// A counter asked to open its window by a run that then ended before it
    /// did. The window is closed if it comes within the time the run would have
    /// waited for it.
    pub window_unwanted: Option<Unwanted>,
    pub last_run: Option<Moment>,
    /// No run is started before this: a vendor that could not be reached is not
    /// tried again at once.
    pub next_run: Option<Moment>,
    /// No ground is chosen before this, for the same reason.
    pub next_hunt: Option<Moment>,
    /// Where the character last stood outdoors. A journey out of a building
    /// begins with a walk back to this spot.
    pub last_outdoors: Option<Spot>,
    /// The journey to make once outside.
    pub after_out: Option<Spot>,
    /// What the character was short of when the run began, for the stops after
    /// the first.
    pub needs: Vec<Need>,
}

impl Default for State {
    fn default() -> (r: State)
        ensures
            r.mode_because@.len() == 0,
            r.last_saying@.len() == 0,
            r.held_back@.len() == 0,
            r.skip@.len() == 0,
            r.needs@.len() == 0,
            r.spending@ == (Memory {
                last_raise: None,
                pending: None,
                nothing_at: None,
                sulking: seq![],
            }),
            r == (State {
                mode: GroupMode::Hunting,
                mode_since: None,
                mode_because: r.mode_because,
                handed_over: false,
                bought_anything: false,
                round: 0,
                too_heavy: false,
                last_saying: r.last_saying,
                in_dungeon: false,
                run_was_futile: false,
                stopped_in_town: false,
                stopped_looked: None,
                held_back: r.held_back,
                sale_since: None,
                spending: r.spending,
                roams: 0,
                quiet_since: None,
                bound: None,
                bound_since: None,
                bound_walked_on: None,
                hunting_at: None,
                skip: r.skip,
                run: None,
                by_hand: false,
                hand_stepped: None,
                window_unwanted: None,
                last_run: None,
                next_run: None,
                next_hunt: None,
                last_outdoors: None,
                after_out: None,
                needs: r.needs,
            }),
    {
        State {
            mode: GroupMode::Hunting,
            mode_since: None,
            mode_because: String::new(),
            handed_over: false,
            bought_anything: false,
            round: 0,
            too_heavy: false,
            last_saying: String::new(),
            in_dungeon: false,
            run_was_futile: false,
            stopped_in_town: false,
            stopped_looked: None,
            held_back: String::new(),
            sale_since: None,
            spending: Spending::default(),
            roams: 0,
            quiet_since: None,
            bound: None,
            bound_since: None,
            bound_walked_on: None,
            hunting_at: None,
            skip: Vec::new(),
            run: None,
            by_hand: false,
            hand_stepped: None,
            window_unwanted: None,
            last_run: None,
            next_run: None,
            next_hunt: None,
            last_outdoors: None,
            after_out: None,
            needs: Vec::new(),
        }
    }
}

impl State {
    /// Let go of any journey the growth rules were part-way through. Used when
    /// the player takes the character back.
    pub fn let_go(&mut self)
        ensures
            *final(self) == (State { bound: None, bound_since: None, after_out: None, ..*old(self) }),
    {
        self.bound = None;
        self.bound_since = None;
        self.after_out = None;
    }

    /// Whether a run to town is under way, from setting off to the last
    /// counter.
    pub fn town_run_under_way(&self) -> (r: bool)
        ensures
            r == (self.run is Some),
    {
        self.run.is_some()
    }

    /// What a run becomes when the server says the character was busy.
    pub open spec fn told_busy(run: Option<Run>, now: Moment) -> Option<Run> {
        match run {
            Some(r) => match r.phase {
                Phase::Opening { guid, tries, busy, asked_over } => if asked_over < BUSY_ASKS {
                    Some(
                        Run {
                            phase: Phase::Opening { guid, tries, busy: Some(now), asked_over },
                            ..r
                        },
                    )
                } else {
                    run
                },
                _ => run,
            },
            None => run,
        }
    }

    /// The server turned something away because the character was busy. Heard
    /// while a counter is being asked for its window, that is the Use being
    /// turned away for a cast of our own, and the run waits for the cast rather
    /// than for the counter. Past the asks a busy refusal earns, the refusals
    /// are the counter's own and the run is on the ordinary clock.
    pub fn counter_said_busy(&mut self, now: Moment)
        ensures
            *final(self) == (State { run: State::told_busy(old(self).run, now), ..*old(self) }),
    {
        if let Some(run) = &mut self.run {
            if let Phase::Opening { guid, tries, busy: _, asked_over } = run.phase {
                if asked_over < BUSY_ASKS {
                    run.phase = Phase::Opening { guid, tries, busy: Some(now), asked_over };
                }
            }
        }
    }

    /// Whether the run under way is the vendoring panel's to step.
    pub fn run_by_hand(&self) -> (r: bool)
        ensures
            r == (self.by_hand && self.run is Some),
    {
        self.by_hand && self.run.is_some()
    }

    /// Whether the growth rules have somewhere to be: a hunting ground to reach
    /// or counters to go round.
    pub fn has_an_errand(&self) -> (r: bool)
        ensures
            r == (self.bound is Some || self.run is Some),
    {
        self.bound.is_some() || self.run.is_some()
    }

    /// Let go of an errand whose setting has been turned off: a run with town
    /// runs off, a walk to a ground with grounds off and no hunting area. A run
    /// the panel is driving is not autoplay's to let go.
    ///
    /// The run let go is handed back: its window, if it had one, is the
    /// client's to close.
    pub fn drop_what_is_turned_off(&mut self, town_runs: bool, grounds: bool) -> (r: Option<Run>)
        ensures
            ({
                let drops = !town_runs && !old(self).by_hand && old(self).run is Some;
                &&& r == if drops {
                    old(self).run
                } else {
                    None
                }
                &&& *final(self) == (State {
                    run: if drops {
                        None
                    } else {
                        old(self).run
                    },
                    needs: final(self).needs,
                    bound: if grounds {
                        old(self).bound
                    } else {
                        None
                    },
                    bound_since: if grounds {
                        old(self).bound_since
                    } else {
                        None
                    },
                    ..*old(self)
                })
                &&& if drops {
                    final(self).needs@.len() == 0
                } else {
                    final(self).needs == old(self).needs
                }
            }),
    {
        let mut dropped: Option<Run> = None;
        if !town_runs && !self.by_hand {
            dropped = self.run.take();
            if dropped.is_some() {
                self.needs.clear();
            }
        }
        if !grounds {
            self.bound = None;
            self.bound_since = None;
        }
        dropped
    }
}

} // verus!
