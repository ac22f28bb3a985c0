//! A run to town, turn by turn: the walk, the counter's window, the look over
//! the pack, the trade.

use crate::clock::{lately, since, spec_lately, spec_since, Moment};
use crate::counters::Errand;
use crate::orders::{deeds, give, hold_vendor, note, say, Deed, Doing, Order};
use crate::place::{about, in_fifties, Point, Spot};
use crate::single::Single;
use crate::state::{
    on_opening, on_the_way, spec_on_opening, spec_on_the_way, OnOpening, OnTheWay, Phase, Run,
    State, Turn, RUN_EVERY, WALK_ON_EVERY,
};
use crate::text::{cat2, cat3, cat4, cat5, count, counted, same, show, shown};
use vstd::prelude::*;
use vstd::string::*;

verus! {

/// A walk to a vendor, or to a hunting ground, that has taken longer than this
/// is stuck somewhere: the place is given up on.
pub const WALK_TIMEOUT: u64 = 240_000_000_000;

/// How long to wait for the appraisals to come back.
pub const APPRAISALS_SETTLE: u64 = 10_000_000_000;

/// 35.0: standing this close to a vendor is close enough to use it.
pub const VENDOR_REACH: u32 = 0x420c_0000;

/// 45.0: a vendor this close to where one is listed may be the one.
pub const VENDOR_ABOUT: u32 = 0x4234_0000;

/// 3.0: how close to stand before asking a counter to open.
pub const COUNTER_REACH: u32 = 0x4040_0000;

/// 1.5: how close to walk up to it.
pub const COUNTER_STAND: u32 = 0x3fc0_0000;

/// Somebody standing about: who, where, and what they may be.
#[derive(Clone, Debug)]
pub struct Being {
    pub guid: u32,
    pub name: String,
    pub at: Option<Point>,
    /// It keeps a counter.
    pub vendor: bool,
    pub creature: bool,
    pub attackable: bool,
    pub player: bool,
}

/// What a turn of a run sees.
#[derive(Clone, Debug)]
pub struct RunLook {
    /// Where the character stands, once it is in the world.
    pub me: Option<Spot>,
    pub traveling: bool,
    /// The last journey was ended by something else the character went to do.
    pub broken_off: bool,
    /// It has something to fight, or something it is casting at.
    pub busy: bool,
    /// A cast of ours is in the air.
    pub cast_in_flight: bool,
    /// The counter whose window is open.
    pub window: Option<u32>,
    /// It is walking after something.
    pub following: bool,
    pub beings: Vec<Being>,
    /// Something carried that is worth anything has not been appraised.
    pub unappraised: bool,
    /// The counter has not answered for what it was last handed.
    pub vendor_busy: bool,
}

/// Why a counter is left.
#[derive(Clone, Copy, Debug, PartialEq, Eq, Structural)]
pub enum Left {
    TooLong,
    NotGotTo,
    NotHere,
    NoTrade,
    BuysNone,
}

impl Left {
    pub open spec fn words(self) -> Seq<char> {
        match self {
            Left::TooLong => "was too long a walk"@,
            Left::NotGotTo => "could not be got to"@,
            Left::NotHere => "is not here"@,
            Left::NoTrade => "would not trade"@,
            Left::BuysNone => "buys none of this"@,
        }
    }

    /// What the counter did, as said of it.
    pub fn label(self) -> (r: &'static str)
        ensures
            r@ == self.words(),
    {
        match self {
            Left::TooLong => "was too long a walk",
            Left::NotGotTo => "could not be got to",
            Left::NotHere => "is not here",
            Left::NoTrade => "would not trade",
            Left::BuysNone => "buys none of this",
        }
    }
}

/// What a turn comes to, or what it has to ask first.
#[derive(Clone, Copy, Debug, PartialEq, Eq, Structural)]
pub enum RunNext {
    /// The turn is over.
    Turned(Turn),
    /// Plan the journey proper, now that the walk out of doors has ended.
    TravelOn(Spot),
    /// Plan the walk to the counter again.
    WalkOn(Spot),
    /// Put the pack up for appraisal.
    LookOver,
    /// Pour loose stacks together.
    Pour,
    /// Ask the shopping rules for the next thing to do, and do it.
    Trade,
    /// The run is done with this counter.
    Leave(Option<Left>),
}

/// Somebody who may be the vendor `name` listed at `at`.
pub open spec fn may_be_vendor(b: Being, name: Seq<char>, at: Spot) -> bool {
    &&& b.vendor || (b.creature && !b.attackable && !b.player && b.name@ == name)
    &&& b.at is Some
    &&& b.at->0.spec_flat().spec_away(at).at_most(Single { bits: VENDOR_ABOUT })
}

/// One who may be the vendor is taken before another: one of the name before
/// any other, and else the nearer.
pub open spec fn nearer_vendor(a: Being, b: Being, name: Seq<char>, at: Spot) -> bool {
    let x = a.at->0.spec_flat().spec_away(at).place();
    let y = b.at->0.spec_flat().spec_away(at).place();
    if (a.name@ == name) != (b.name@ == name) {
        a.name@ == name
    } else {
        x < y
    }
}

/// Which of the first `n` is the vendor: the nearest of the name, and where
/// nobody of the name may be, the nearest who may.
pub open spec fn vendor_of(beings: Seq<Being>, name: Seq<char>, at: Spot, n: nat) -> Option<int>
    decreases n,
{
    if n == 0 {
        None
    } else {
        let i = n - 1;
        let best = vendor_of(beings, name, at, i as nat);
        if !may_be_vendor(beings[i], name, at) {
            best
        } else if best is Some && !nearer_vendor(beings[i], beings[best->0], name, at) {
            best
        } else {
            Some(i)
        }
    }
}

/// The vendor is one who may be, and none who may be is taken before: where
/// anybody of the name may be, it is of the name, and none of the name is nearer.
pub proof fn law_the_vendor_is_of_the_name(beings: Seq<Being>, name: Seq<char>, at: Spot, n: nat)
    requires
        n <= beings.len(),
    ensures
        match vendor_of(beings, name, at, n) {
            Some(i) => {
                &&& 0 <= i < n
                &&& may_be_vendor(beings[i], name, at)
                &&& forall|k: int|
                    0 <= k < n && may_be_vendor(#[trigger] beings[k], name, at) ==> {
                        &&& !nearer_vendor(beings[k], beings[i], name, at)
                        &&& beings[k].name@ == name ==> beings[i].name@ == name
                    }
            },
            None => forall|k: int|
                0 <= k < n ==> !may_be_vendor(#[trigger] beings[k], name, at),
        },
    decreases n,
{
    if n > 0 {
        law_the_vendor_is_of_the_name(beings, name, at, (n - 1) as nat);
    }
}

fn could_be_vendor(b: &Being, name: &str, at: Spot) -> (r: bool)
    ensures
        r == may_be_vendor(*b, name@, at),
{
    let kind = b.vendor || (b.creature && !b.attackable && !b.player && same(
        b.name.as_str(),
        name,
    ));
    if !kind {
        return false;
    }
    match b.at {
        Some(p) => p.flat().away(at).le(Single { bits: VENDOR_ABOUT }),
        None => false,
    }
}

fn is_nearer_vendor(a: &Being, b: &Being, name: &str, at: Spot) -> (r: bool)
    requires
        a.at is Some,
        b.at is Some,
    ensures
        r == nearer_vendor(*a, *b, name@, at),
{
    let named = same(a.name.as_str(), name);
    if named != same(b.name.as_str(), name) {
        return named;
    }
    let x = a.at.unwrap().flat().away(at);
    let y = b.at.unwrap().flat().away(at);
    x.stands_before(y)
}

/// The vendor nearest `at`, by name when one matches.
pub fn vendor_object(beings: &Vec<Being>, name: &str, at: Spot) -> (r: Option<usize>)
    ensures
        match r {
            Some(i) => {
                &&& vendor_of(beings@, name@, at, beings@.len()) == Some(i as int)
                &&& i < beings.len()
                &&& may_be_vendor(beings@[i as int], name@, at)
            },
            None => vendor_of(beings@, name@, at, beings@.len()) is None,
        },
{
    let mut best: Option<usize> = None;
    let mut i: usize = 0;
    while i < beings.len()
        invariant
            i <= beings.len(),
            match best {
                Some(k) => {
                    &&& vendor_of(beings@, name@, at, i as nat) == Some(k as int)
                    &&& k < i
                    &&& may_be_vendor(beings@[k as int], name@, at)
                },
                None => vendor_of(beings@, name@, at, i as nat) is None,
            },
        decreases beings.len() - i,
    {
        if could_be_vendor(&beings[i], name, at) {
            match best {
                Some(k) => {
                    if is_nearer_vendor(&beings[i], &beings[k], name, at) {
                        best = Some(i);
                    }
                },
                None => {
                    best = Some(i);
                },
            }
        }
        i = i + 1;
    }
    best
}

/// What a turn is: what is remembered after it, what is asked for, and what it
/// comes to.
pub type Played = (State, Seq<Deed>, RunNext);

pub open spec fn with_run(st: State, run: Run) -> State {
    State { run: Some(run), ..st }
}

/// The counter is at hand: walk up to it, and ask it to open.
pub open spec fn played_there(st: State, run: Run, look: RunLook, me: Spot, now: Moment) -> Played {
    match vendor_of(look.beings@, run.vendor@, run.at, look.beings@.len()) {
        None => (
            st,
            seq![Deed::Note(run.vendor@ + " is not here (indoors, or gone)"@)],
            RunNext::Leave(Some(Left::NotHere)),
        ),
        Some(i) => {
            let b = look.beings@[i];
            let spot = b.at->0;
            if (Single { bits: COUNTER_REACH }).below(spot.spec_flat().spec_away(me)) {
                (
                    st,
                    seq![
                        Deed::HeadFor {
                            at: spot,
                            within: Single { bits: COUNTER_STAND },
                            name: run.vendor@,
                        },
                        Deed::Say(Doing::Shopping, "walking up to "@ + run.vendor@),
                    ],
                    RunNext::Turned(Turn::Acted),
                )
            } else if look.cast_in_flight {
                (
                    st,
                    seq![
                        Deed::Say(
                            Doing::Shopping,
                            "waiting for the cast to land before talking to "@ + run.vendor@,
                        ),
                    ],
                    RunNext::Turned(Turn::Waited),
                )
            } else {
                let stop = if look.following {
                    seq![Deed::StopFollowing]
                } else {
                    seq![]
                };
                (
                    with_run(
                        st,
                        Run {
                            phase: Phase::Opening {
                                guid: b.guid,
                                tries: 1,
                                busy: None,
                                asked_over: 0,
                            },
                            since: now,
                            ..run
                        },
                    ),
                    stop + seq![
                        Deed::UseObject(b.guid),
                        Deed::Say(Doing::Shopping, "talking to "@ + run.vendor@),
                    ],
                    RunNext::Turned(Turn::Acted),
                )
            }
        },
    }
}

/// A walk to the counter with no journey under way.
pub open spec fn played_stopped(st: State, run: Run, look: RunLook, me: Spot, now: Moment) -> Played {
    let away = run.at.spec_away(me);
    let there = away.at_most(Single { bits: VENDOR_REACH });
    match spec_on_the_way(
        there,
        look.broken_off,
        look.busy,
        spec_lately(run.walked_on, now, WALK_ON_EVERY),
    ) {
        OnTheWay::There => played_there(st, run, look, me, now),
        OnTheWay::Wait => (st, seq![], RunNext::Turned(Turn::Waited)),
        OnTheWay::WalkOn => (st, seq![], RunNext::WalkOn(run.at)),
        OnTheWay::Short => (
            st,
            seq![
                Deed::Note(
                    "could not get to "@ + run.vendor@ + " ("@ + shown(away) + " m short)"@,
                ),
            ],
            RunNext::Leave(Some(Left::NotGotTo)),
        ),
    }
}

/// A walk to the counter with a journey under way.
pub open spec fn played_walking(st: State, run: Run, me: Spot) -> Played {
    (
        st,
        seq![
            Deed::Say(
                Doing::Shopping,
                run.reason@ + ": going to "@ + run.vendor@ + " ("@ + (counted(
                    in_fifties(run.at.spec_away(me)) as nat,
                ) + " m"@) + ")"@,
            ),
        ],
        RunNext::Turned(Turn::Waited),
    )
}

pub open spec fn played_going(st: State, run: Run, look: RunLook, me: Spot, now: Moment) -> Played {
    if spec_since(now, run.since) > WALK_TIMEOUT {
        (
            st,
            seq![
                Deed::Note("the walk to "@ + run.vendor@ + " is taking too long"@),
                Deed::CancelTravel,
            ],
            RunNext::Leave(Some(Left::TooLong)),
        )
    } else if look.traveling {
        played_walking(st, run, me)
    } else if st.after_out is Some {
        (State { after_out: None, ..st }, seq![], RunNext::TravelOn(st.after_out->0))
    } else {
        played_stopped(st, run, look, me, now)
    }
}

pub open spec fn played_opening(
    st: State,
    run: Run,
    look: RunLook,
    guid: u32,
    tries: u32,
    busy: Option<Moment>,
    asked_over: u32,
    now: Moment,
) -> Played {
    let ago = match busy {
        Some(t) => Some(spec_since(now, t)),
        None => None,
    };
    match spec_on_opening(
        look.window == Some(guid),
        ago,
        look.cast_in_flight,
        asked_over,
        spec_since(now, run.since),
        tries,
    ) {
        OnOpening::Opened => (st, seq![], RunNext::LookOver),
        OnOpening::AskOver => (
            with_run(
                st,
                Run {
                    phase: Phase::Opening {
                        guid,
                        tries,
                        busy: None,
                        asked_over: (asked_over + 1) as u32,
                    },
                    since: now,
                    ..run
                },
            ),
            seq![
                Deed::UseObject(guid),
                Deed::Note("asking "@ + run.vendor@ + " again now the cast has landed"@),
            ],
            RunNext::Turned(Turn::Acted),
        ),
        OnOpening::AskAgain => (
            with_run(
                st,
                Run {
                    phase: Phase::Opening {
                        guid,
                        tries: (tries + 1) as u32,
                        busy: None,
                        asked_over,
                    },
                    since: now,
                    ..run
                },
            ),
            seq![Deed::UseObject(guid)],
            RunNext::Turned(Turn::Acted),
        ),
        OnOpening::GiveUp => (
            st,
            seq![Deed::Note(run.vendor@ + " would not trade"@)],
            RunNext::Leave(Some(Left::NoTrade)),
        ),
        OnOpening::Wait => (
            st,
            if busy is Some {
                seq![Deed::Say(Doing::Shopping, turned_away(run.vendor@))]
            } else {
                seq![]
            },
            RunNext::Turned(Turn::Waited),
        ),
    }
}

pub open spec fn turned_away(vendor: Seq<char>) -> Seq<char> {
    vendor
        + " turned the Use away while a cast was in the air; asking again once it lands"@
}

/// One turn of the run in progress.
pub open spec fn played(st: State, look: RunLook, now: Moment) -> Played {
    match (st.run, look.me) {
        (None, _) => (st, seq![], RunNext::Turned(Turn::Over)),
        (Some(_), None) => (st, seq![], RunNext::Turned(Turn::Waited)),
        (Some(run), Some(me)) => match run.phase {
            Phase::Going => played_going(st, run, look, me, now),
            Phase::Opening { guid, tries, busy, asked_over } => played_opening(
                st,
                run,
                look,
                guid,
                tries,
                busy,
                asked_over,
                now,
            ),
            Phase::Appraising => if look.unappraised && spec_since(now, run.since)
                < APPRAISALS_SETTLE {
                (st, seq![], RunNext::Turned(Turn::Waited))
            } else {
                (st, seq![], RunNext::Pour)
            },
            Phase::Selling => if look.vendor_busy {
                (st, seq![], RunNext::Turned(Turn::Waited))
            } else {
                (st, seq![], RunNext::Trade)
            },
        },
    }
}

/// What was remembered and given before became what a turn says.
pub open spec fn plays(
    before: State,
    after: State,
    given: Seq<Order>,
    orders: Seq<Order>,
    r: RunNext,
    p: Played,
) -> bool {
    &&& after == p.0
    &&& deeds(orders) == deeds(given) + p.1
    &&& r == p.2
}

fn set_phase(st: &mut State, phase: Phase, now: Moment)
    requires
        old(st).run is Some,
    ensures
        *final(st) == with_run(*old(st), Run { phase, since: now, ..old(st).run->0 }),
{
    if let Some(run) = &mut st.run {
        run.phase = phase;
        run.since = now;
    }
}

fn run_there(st: &mut State, look: &RunLook, me: Spot, now: Moment, out: &mut Vec<Order>) -> (r:
    RunNext)
    requires
        old(st).run is Some,
    ensures
        plays(
            *old(st),
            *final(st),
            old(out)@,
            final(out)@,
            r,
            played_there(*old(st), old(st).run->0, *look, me, now),
        ),
{
    let (vendor, at) = match &st.run {
        Some(run) => (run.vendor.clone(), run.at),
        None => (String::new(), me),
    };
    let ghost p = played_there(*st, st.run->0, *look, me, now);
    match vendor_object(&look.beings, vendor.as_str(), at) {
        None => {
            note(out, cat2(vendor.as_str(), " is not here (indoors, or gone)"));
            assert(deeds(out@) =~= deeds(old(out)@) + p.1);
            RunNext::Leave(Some(Left::NotHere))
        },
        Some(i) => {
            let b = &look.beings[i];
            let spot = b.at.unwrap();
            if (Single { bits: COUNTER_REACH }).lt(spot.flat().away(me)) {
                give(
                    out,
                    Order::HeadFor {
                        at: spot,
                        within: Single { bits: COUNTER_STAND },
                        name: vendor.clone(),
                    },
                );
                say(out, Doing::Shopping, cat2("walking up to ", vendor.as_str()));
                assert(deeds(out@) =~= deeds(old(out)@) + p.1);
                return RunNext::Turned(Turn::Acted);
            }
            if look.cast_in_flight {
                say(
                    out,
                    Doing::Shopping,
                    cat2("waiting for the cast to land before talking to ", vendor.as_str()),
                );
                assert(deeds(out@) =~= deeds(old(out)@) + p.1);
                return RunNext::Turned(Turn::Waited);
            }
            if look.following {
                give(out, Order::StopFollowing);
            }
            give(out, Order::UseObject(b.guid));
            set_phase(
                st,
                Phase::Opening { guid: b.guid, tries: 1, busy: None, asked_over: 0 },
                now,
            );
            say(out, Doing::Shopping, cat2("talking to ", vendor.as_str()));
            assert(deeds(out@) =~= deeds(old(out)@) + p.1);
            RunNext::Turned(Turn::Acted)
        },
    }
}

fn run_stopped(st: &mut State, look: &RunLook, me: Spot, now: Moment, out: &mut Vec<Order>) -> (r:
    RunNext)
    requires
        old(st).run is Some,
    ensures
        plays(
            *old(st),
            *final(st),
            old(out)@,
            final(out)@,
            r,
            played_stopped(*old(st), old(st).run->0, *look, me, now),
        ),
{
    let (vendor, at, walked_on) = match &st.run {
        Some(run) => (run.vendor.clone(), run.at, run.walked_on),
        None => (String::new(), me, None),
    };
    let ghost p = played_stopped(*st, st.run->0, *look, me, now);
    let away = at.away(me);
    match on_the_way(
        away.le(Single { bits: VENDOR_REACH }),
        look.broken_off,
        look.busy,
        lately(walked_on, now, WALK_ON_EVERY),
    ) {
        OnTheWay::There => run_there(st, look, me, now, out),
        OnTheWay::Wait => {
            assert(deeds(out@) =~= deeds(old(out)@) + p.1);
            RunNext::Turned(Turn::Waited)
        },
        OnTheWay::WalkOn => {
            assert(deeds(out@) =~= deeds(old(out)@) + p.1);
            RunNext::WalkOn(at)
        },
        OnTheWay::Short => {
            let far = show(away);
            note(
                out,
                cat5("could not get to ", vendor.as_str(), " (", far.as_str(), " m short)"),
            );
            assert(deeds(out@) =~= deeds(old(out)@) + p.1);
            RunNext::Leave(Some(Left::NotGotTo))
        },
    }
}

fn run_walking(st: &State, me: Spot, out: &mut Vec<Order>) -> (r: RunNext)
    requires
        st.run is Some,
    ensures
        plays(*st, *st, old(out)@, final(out)@, r, played_walking(*st, st.run->0, me)),
{
    if let Some(run) = &st.run {
        let far = about(run.at.away(me));
        let to = cat4(run.reason.as_str(), ": going to ", run.vendor.as_str(), " (");
        say(out, Doing::Shopping, cat3(to.as_str(), far.as_str(), ")"));
    }
    assert(deeds(out@) =~= deeds(old(out)@) + played_walking(*st, st.run->0, me).1);
    RunNext::Turned(Turn::Waited)
}

fn run_opening(
    st: &mut State,
    look: &RunLook,
    guid: u32,
    tries: u32,
    busy: Option<Moment>,
    asked_over: u32,
    now: Moment,
    out: &mut Vec<Order>,
) -> (r: RunNext)
    requires
        old(st).run is Some,
    ensures
        plays(
            *old(st),
            *final(st),
            old(out)@,
            final(out)@,
            r,
            played_opening(*old(st), old(st).run->0, *look, guid, tries, busy, asked_over, now),
        ),
{
    let (vendor, began) = match &st.run {
        Some(run) => (run.vendor.clone(), run.since),
        None => (String::new(), now),
    };
    let ghost p = played_opening(*st, st.run->0, *look, guid, tries, busy, asked_over, now);
    let open = match look.window {
        Some(w) => w == guid,
        None => false,
    };
    let ago = match busy {
        Some(t) => Some(since(now, t)),
        None => None,
    };
    match on_opening(open, ago, look.cast_in_flight, asked_over, since(now, began), tries) {
        OnOpening::Opened => {
            assert(deeds(out@) =~= deeds(old(out)@) + p.1);
            RunNext::LookOver
        },
        OnOpening::AskOver => {
            give(out, Order::UseObject(guid));
            set_phase(
                st,
                Phase::Opening { guid, tries, busy: None, asked_over: asked_over + 1 },
                now,
            );
            note(out, cat3("asking ", vendor.as_str(), " again now the cast has landed"));
            assert(deeds(out@) =~= deeds(old(out)@) + p.1);
            RunNext::Turned(Turn::Acted)
        },
        OnOpening::AskAgain => {
            give(out, Order::UseObject(guid));
            set_phase(
                st,
                Phase::Opening { guid, tries: tries + 1, busy: None, asked_over },
                now,
            );
            assert(deeds(out@) =~= deeds(old(out)@) + p.1);
            RunNext::Turned(Turn::Acted)
        },
        OnOpening::GiveUp => {
            note(out, cat2(vendor.as_str(), " would not trade"));
            assert(deeds(out@) =~= deeds(old(out)@) + p.1);
            RunNext::Leave(Some(Left::NoTrade))
        },
        OnOpening::Wait => {
            if busy.is_some() {
                say(
                    out,
                    Doing::Shopping,
                    cat2(
                        vendor.as_str(),
                        " turned the Use away while a cast was in the air; asking again once it lands",
                    ),
                );
            }
            assert(deeds(out@) =~= deeds(old(out)@) + p.1);
            RunNext::Turned(Turn::Waited)
        },
    }
}

/// One turn of the run in progress: what it comes to, or what it has to ask
/// first. The answer to what it asks is given to [`run_traveled_on`],
/// [`run_walked_on`], [`run_looked_over`], [`run_poured`] or [`run_traded`],
/// and a counter left to `grow_run_next`.
pub fn grow_run_step(st: &mut State, look: &RunLook, now: Moment, out: &mut Vec<Order>) -> (r:
    RunNext)
    ensures
        plays(*old(st), *final(st), old(out)@, final(out)@, r, played(*old(st), *look, now)),
{
    let ghost p = played(*st, *look, now);
    let (phase, began) = match &st.run {
        Some(run) => (run.phase, run.since),
        None => {
            assert(deeds(out@) =~= deeds(old(out)@) + p.1);
            return RunNext::Turned(Turn::Over);
        },
    };
    let me = match look.me {
        Some(me) => me,
        None => {
            assert(deeds(out@) =~= deeds(old(out)@) + p.1);
            return RunNext::Turned(Turn::Waited);
        },
    };
    match phase {
        Phase::Going => {
            if since(now, began) > WALK_TIMEOUT {
                if let Some(run) = &st.run {
                    note(out, cat3("the walk to ", run.vendor.as_str(), " is taking too long"));
                }
                give(out, Order::CancelTravel);
                assert(deeds(out@) =~= deeds(old(out)@) + p.1);
                return RunNext::Leave(Some(Left::TooLong));
            }
            if look.traveling {
                return run_walking(st, me, out);
            }
            if let Some(goal) = st.after_out {
                st.after_out = None;
                assert(deeds(out@) =~= deeds(old(out)@) + p.1);
                return RunNext::TravelOn(goal);
            }
            run_stopped(st, look, me, now, out)
        },
        Phase::Opening { guid, tries, busy, asked_over } => run_opening(
            st,
            look,
            guid,
            tries,
            busy,
            asked_over,
            now,
            out,
        ),
        Phase::Appraising => {
            assert(deeds(out@) =~= deeds(old(out)@) + p.1);
            if look.unappraised && since(now, began) < APPRAISALS_SETTLE {
                RunNext::Turned(Turn::Waited)
            } else {
                RunNext::Pour
            }
        },
        Phase::Selling => {
            assert(deeds(out@) =~= deeds(old(out)@) + p.1);
            if look.vendor_busy {
                RunNext::Turned(Turn::Waited)
            } else {
                RunNext::Trade
            }
        },
    }
}

/// The journey proper was planned, or could not be.
pub open spec fn traveled_on(st: State, look: RunLook, way: bool, now: Moment) -> Played {
    match (st.run, look.me) {
        (Some(run), Some(me)) => if way {
            played_walking(st, run, me)
        } else {
            played_stopped(st, run, look, me, now)
        },
        _ => (st, seq![], RunNext::Turned(Turn::Over)),
    }
}

/// The journey proper was planned, or could not be.
pub fn run_traveled_on(
    st: &mut State,
    look: &RunLook,
    way: bool,
    now: Moment,
    out: &mut Vec<Order>,
) -> (r: RunNext)
    ensures
        plays(
            *old(st),
            *final(st),
            old(out)@,
            final(out)@,
            r,
            traveled_on(*old(st), *look, way, now),
        ),
{
    match look.me {
        Some(me) => {
            if st.run.is_some() {
                return if way {
                    run_walking(st, me, out)
                } else {
                    run_stopped(st, look, me, now, out)
                };
            }
        },
        None => {},
    }
    assert(deeds(out@) =~= deeds(old(out)@) + traveled_on(*old(st), *look, way, now).1);
    RunNext::Turned(Turn::Over)
}

/// The walk to the counter was planned again, or could not be.
pub open spec fn walked_on(st: State, me: Spot, way: bool, now: Moment) -> Played {
    match st.run {
        Some(run) => {
            let away = shown(run.at.spec_away(me));
            if way {
                (
                    with_run(st, Run { walked_on: Some(now), ..run }),
                    seq![
                        Deed::Note(
                            "on the way to "@ + run.vendor@ + " again ("@ + away + " m)"@,
                        ),
                    ],
                    RunNext::Turned(Turn::Acted),
                )
            } else {
                (
                    st,
                    seq![
                        Deed::Note(
                            "no way on to "@ + run.vendor@ + " from here ("@ + away
                                + " m short)"@,
                        ),
                    ],
                    RunNext::Leave(Some(Left::NotGotTo)),
                )
            }
        },
        None => (st, seq![], RunNext::Turned(Turn::Over)),
    }
}

/// The walk to the counter was planned again, or could not be.
pub fn run_walked_on(st: &mut State, me: Spot, way: bool, now: Moment, out: &mut Vec<Order>) -> (r:
    RunNext)
    ensures
        plays(
            *old(st),
            *final(st),
            old(out)@,
            final(out)@,
            r,
            walked_on(*old(st), me, way, now),
        ),
{
    let ghost p = walked_on(*st, me, way, now);
    match &mut st.run {
        Some(run) => {
            let away = show(run.at.away(me));
            if way {
                note(
                    out,
                    cat5(
                        "on the way to ",
                        run.vendor.as_str(),
                        " again (",
                        away.as_str(),
                        " m)",
                    ),
                );
                run.walked_on = Some(now);
                assert(deeds(out@) =~= deeds(old(out)@) + p.1);
                RunNext::Turned(Turn::Acted)
            } else {
                note(
                    out,
                    cat5(
                        "no way on to ",
                        run.vendor.as_str(),
                        " from here (",
                        away.as_str(),
                        " m short)",
                    ),
                );
                assert(deeds(out@) =~= deeds(old(out)@) + p.1);
                RunNext::Leave(Some(Left::NotGotTo))
            }
        },
        None => {
            assert(deeds(out@) =~= deeds(old(out)@) + p.1);
            RunNext::Turned(Turn::Over)
        },
    }
}

/// The pack was put up for appraisal, `n` things of it.
pub open spec fn looked_over(st: State, n: usize, now: Moment) -> Played {
    match st.run {
        Some(run) => (
            with_run(st, Run { phase: Phase::Appraising, since: now, ..run }),
            seq![
                Deed::Say(
                    Doing::Shopping,
                    "at "@ + run.vendor@ + "; looking over "@ + counted(n as nat) + " item(s)"@,
                ),
            ],
            RunNext::Turned(Turn::Acted),
        ),
        None => (st, seq![], RunNext::Turned(Turn::Over)),
    }
}

/// The pack was put up for appraisal, `n` things of it.
pub fn run_looked_over(st: &mut State, n: usize, now: Moment, out: &mut Vec<Order>) -> (r: RunNext)
    ensures
        plays(*old(st), *final(st), old(out)@, final(out)@, r, looked_over(*old(st), n, now)),
{
    let ghost p = looked_over(*st, n, now);
    if st.run.is_some() {
        if let Some(run) = &st.run {
            let things = count(n as u128);
            say(
                out,
                Doing::Shopping,
                cat5("at ", run.vendor.as_str(), "; looking over ", things.as_str(), " item(s)"),
            );
        }
        set_phase(st, Phase::Appraising, now);
        assert(deeds(out@) =~= deeds(old(out)@) + p.1);
        RunNext::Turned(Turn::Acted)
    } else {
        assert(deeds(out@) =~= deeds(old(out)@) + p.1);
        RunNext::Turned(Turn::Over)
    }
}

/// What pouring stacks together came to.
#[derive(Clone, Copy, Debug, PartialEq, Eq, Structural)]
pub enum Poured {
    /// A pour went out.
    Acting,
    /// One is in the air.
    Waiting,
    /// The pack is as tight as it goes, or cannot be tightened until something
    /// is sold.
    Settled,
}

/// Stacks were poured together; `n` things can be sold here, and `carrying` are
/// carried for a counter.
pub open spec fn poured(st: State, did: Poured, n: usize, carrying: usize, now: Moment) -> Played {
    match st.run {
        None => (st, seq![], RunNext::Turned(Turn::Over)),
        Some(run) => match did {
            Poured::Acting => (st, seq![], RunNext::Turned(Turn::Acted)),
            Poured::Waiting => (st, seq![], RunNext::Turned(Turn::Waited)),
            Poured::Settled => {
                let why = run.vendor@ + " buys none of this ("@ + counted(carrying as nat)
                    + " thing(s) for a counter)"@;
                let none = if n == 0 && carrying > 0 {
                    seq![
                        Deed::Note(why),
                        Deed::HoldVendor { spot: run.at.spec_spot(), span: RUN_EVERY },
                    ]
                } else {
                    seq![]
                };
                if n == 0 && carrying > 0 && run.errand == Errand::Sell {
                    (
                        st,
                        none + seq![Deed::Say(Doing::Shopping, why)],
                        RunNext::Leave(Some(Left::BuysNone)),
                    )
                } else {
                    (
                        with_run(st, Run { phase: Phase::Selling, since: now, ..run }),
                        none + seq![
                            Deed::NewShop,
                            Deed::Say(
                                Doing::Shopping,
                                "selling "@ + counted(n as nat) + " item(s) to "@ + run.vendor@,
                            ),
                        ],
                        RunNext::Turned(Turn::Waited),
                    )
                }
            },
        },
    }
}

/// Stacks were poured together, and the pack is as tight as it goes or not.
///
/// When this counter takes none of what the pack holds for a counter, it is
/// said so plainly and the counter is left alone for a while; a run made to
/// sell does not stand here buying, but goes on to a counter that will take the
/// loot. The shopping rules start each counter fresh.
pub fn run_poured(
    st: &mut State,
    did: Poured,
    n: usize,
    carrying: usize,
    now: Moment,
    out: &mut Vec<Order>,
) -> (r: RunNext)
    ensures
        plays(
            *old(st),
            *final(st),
            old(out)@,
            final(out)@,
            r,
            poured(*old(st), did, n, carrying, now),
        ),
{
    let ghost p = poured(*st, did, n, carrying, now);
    let (vendor, at, errand) = match &st.run {
        Some(run) => (run.vendor.clone(), run.at, run.errand),
        None => {
            assert(deeds(out@) =~= deeds(old(out)@) + p.1);
            return RunNext::Turned(Turn::Over);
        },
    };
    match did {
        Poured::Acting => {
            assert(deeds(out@) =~= deeds(old(out)@) + p.1);
            RunNext::Turned(Turn::Acted)
        },
        Poured::Waiting => {
            assert(deeds(out@) =~= deeds(old(out)@) + p.1);
            RunNext::Turned(Turn::Waited)
        },
        Poured::Settled => {
            if n == 0 && carrying > 0 {
                let things = count(carrying as u128);
                let why = cat4(
                    vendor.as_str(),
                    " buys none of this (",
                    things.as_str(),
                    " thing(s) for a counter)",
                );
                note(out, why.clone());
                hold_vendor(out, at, RUN_EVERY);
                if errand == Errand::Sell {
                    say(out, Doing::Shopping, why);
                    assert(deeds(out@) =~= deeds(old(out)@) + p.1);
                    return RunNext::Leave(Some(Left::BuysNone));
                }
            }
            set_phase(st, Phase::Selling, now);
            give(out, Order::NewShop);
            let things = count(n as u128);
            say(
                out,
                Doing::Shopping,
                cat4("selling ", things.as_str(), " item(s) to ", vendor.as_str()),
            );
            assert(deeds(out@) =~= deeds(old(out)@) + p.1);
            RunNext::Turned(Turn::Waited)
        },
    }
}

/// What the shopping rules asked for, and what became of it.
#[derive(Clone, Debug)]
pub enum Trade {
    /// They are done at this counter, having sold so many things here.
    Close { sold: u32 },
    /// They asked for something, described in words, that could not be done.
    Refused { act: String },
    /// They asked for something, and it was done.
    Done,
}

/// The shopping rules were asked, and what they asked for was done or not.
pub open spec fn traded(st: State, saying: String, trade: Trade, now: Moment) -> Played {
    let heard = State { last_saying: saying, ..st };
    match st.run {
        None => (st, seq![], RunNext::Turned(Turn::Over)),
        Some(run) => match trade {
            Trade::Close { sold } => (
                with_run(heard, Run { sold: (run.sold + sold) as u32, ..run }),
                seq![Deed::CloseVendor, Deed::NewShop],
                RunNext::Leave(None),
            ),
            Trade::Refused { act } => (
                heard,
                seq![Deed::Note("could not "@ + saying@ + ": "@ + act@), Deed::ShopRefused],
                RunNext::Turned(Turn::Waited),
            ),
            Trade::Done => (
                with_run(
                    heard,
                    Run { last_sell: Some(now), since: now, phase: Phase::Selling, ..run },
                ),
                seq![],
                RunNext::Turned(Turn::Acted),
            ),
        },
    }
}

/// The shopping rules were asked, `saying` what they are about, and what they
/// asked for was done or not. The run's count is for all its counters, and the
/// rules count one at a time. A refusal on this side is an answer too: the
/// rules are told, and the turn is a wait.
pub fn run_traded(
    st: &mut State,
    saying: String,
    trade: Trade,
    now: Moment,
    out: &mut Vec<Order>,
) -> (r: RunNext)
    requires
        old(st).run is Some && trade is Close ==> old(st).run->0.sold + trade->sold <= u32::MAX,
    ensures
        plays(
            *old(st),
            *final(st),
            old(out)@,
            final(out)@,
            r,
            traded(*old(st), saying, trade, now),
        ),
{
    let ghost p = traded(*st, saying, trade, now);
    if !st.run.is_some() {
        assert(deeds(out@) =~= deeds(old(out)@) + p.1);
        return RunNext::Turned(Turn::Over);
    }
    match trade {
        Trade::Close { sold } => {
            if let Some(run) = &mut st.run {
                run.sold = run.sold + sold;
            }
            st.last_saying = saying;
            give(out, Order::CloseVendor);
            give(out, Order::NewShop);
            assert(deeds(out@) =~= deeds(old(out)@) + p.1);
            RunNext::Leave(None)
        },
        Trade::Refused { act } => {
            note(out, cat4("could not ", saying.as_str(), ": ", act.as_str()));
            st.last_saying = saying;
            give(out, Order::ShopRefused);
            assert(deeds(out@) =~= deeds(old(out)@) + p.1);
            RunNext::Turned(Turn::Waited)
        },
        Trade::Done => {
            if let Some(run) = &mut st.run {
                run.last_sell = Some(now);
                run.since = now;
                run.phase = Phase::Selling;
            }
            st.last_saying = saying;
            assert(deeds(out@) =~= deeds(old(out)@) + p.1);
            RunNext::Turned(Turn::Acted)
        },
    }
}

} // verus!
