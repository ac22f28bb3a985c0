//! What holds of a run to a counter, step by step.

use crate::clock::Moment;
use crate::counters::Errand;
use crate::orders::{deeds, Deed, Order};
use crate::place::Spot;
use crate::run::{
    looked_over, may_be_vendor, nearer_vendor, played, plays, poured, traded, traveled_on,
    vendor_of, walked_on, Being, Left, Played, Poured, RunLook, RunNext, Trade,
};
use crate::single::Single;
use crate::state::{Phase, Run, State, Turn};
use vstd::prelude::*;
use vstd::string::*;

verus! {

/// A being may be the vendor: it is one, or a creature of the name that is neither
/// fought nor played; and it stands within 45 metres of where the counter is.
pub open spec fn could_be_it(b: Being, name: Seq<char>, at: Spot) -> bool {
    &&& b.vendor || (b.creature && !b.attackable && !b.player && b.name@ == name)
    &&& b.at is Some
    &&& (Spot { x: b.at->0.x, y: b.at->0.y }).spec_away(at).at_most(Single { bits: 0x4234_0000 })
}

/// How far a being stands from where the counter is.
pub open spec fn stands_off(b: Being, at: Spot) -> int {
    (Spot { x: b.at->0.x, y: b.at->0.y }).spec_away(at).place()
}

/// One being is the vendor rather than another: it has the name and the other has
/// not; or in that they are alike, and it stands nearer.
pub open spec fn rather_it(a: Being, b: Being, name: Seq<char>, at: Spot) -> bool {
    (a.name@ == name && b.name@ != name) || ((a.name@ == name) == (b.name@ == name) && stands_off(
        a,
        at,
    ) < stands_off(b, at))
}

proof fn lemma_vendor(beings: Seq<Being>, name: Seq<char>, at: Spot, n: nat)
    requires
        n <= beings.len(),
    ensures
        match vendor_of(beings, name, at, n) {
            Some(i) => {
                &&& 0 <= i < n
                &&& could_be_it(beings[i], name, at)
                &&& forall|k: int|
                    0 <= k < n && could_be_it(#[trigger] beings[k], name, at) ==> !rather_it(
                        beings[k],
                        beings[i],
                        name,
                        at,
                    ) && (k < i ==> rather_it(beings[i], beings[k], name, at))
            },
            None => forall|k: int| 0 <= k < n ==> !could_be_it(#[trigger] beings[k], name, at),
        },
    decreases n,
{
    if n > 0 {
        lemma_vendor(beings, name, at, (n - 1) as nat);
        let i = n - 1;
        assert(may_be_vendor(beings[i], name, at) == could_be_it(beings[i], name, at));
        if let Some(b) = vendor_of(beings, name, at, i as nat) {
            assert(nearer_vendor(beings[i], beings[b], name, at) == rather_it(
                beings[i],
                beings[b],
                name,
                at,
            ));
        }
    }
}

/// The vendor of a counter is one that may be it, and rather it than any other that
/// may; of several as likely the first. There is none only where none may be.
pub proof fn law_the_likeliest_being_is_the_vendor(beings: Seq<Being>, name: Seq<char>, at: Spot)
    ensures
        match vendor_of(beings, name, at, beings.len()) {
            Some(i) => {
                &&& 0 <= i < beings.len()
                &&& could_be_it(beings[i], name, at)
                &&& forall|k: int|
                    0 <= k < beings.len() && could_be_it(#[trigger] beings[k], name, at)
                        ==> !rather_it(beings[k], beings[i], name, at)
                &&& forall|k: int|
                    0 <= k < i && could_be_it(#[trigger] beings[k], name, at) ==> rather_it(
                        beings[i],
                        beings[k],
                        name,
                        at,
                    )
            },
            None => forall|k: int|
                0 <= k < beings.len() ==> !could_be_it(#[trigger] beings[k], name, at),
        },
{
    lemma_vendor(beings, name, at, beings.len());
}

/// A step uses an object.
pub open spec fn uses(p: Played, guid: u32) -> bool {
    exists|i: int| 0 <= i < p.1.len() && #[trigger] p.1[i] == Deed::UseObject(guid)
}

/// A step uses nothing.
pub open spec fn uses_nothing(p: Played) -> bool {
    forall|i: int| 0 <= i < p.1.len() ==> !((#[trigger] p.1[i]) is UseObject)
}

/// A step breaks the journey off.
pub open spec fn breaks_off(p: Played) -> bool {
    exists|i: int| 0 <= i < p.1.len() && #[trigger] p.1[i] == Deed::CancelTravel
}

/// A step leaves everything as it was.
pub open spec fn as_it_was(st: State, p: Played) -> bool {
    p.0 == st && uses_nothing(p)
}

/// A step at a counter that was walked to, the character and the run being as said.
pub open spec fn there_is_right(
    st: State,
    run: Run,
    look: RunLook,
    me: Spot,
    now: Moment,
    p: Played,
) -> bool {
    match vendor_of(look.beings@, run.vendor@, run.at, look.beings@.len()) {
        None => p.2 == RunNext::Leave(Some(Left::NotHere)) && as_it_was(st, p),
        Some(i) => {
            let b = look.beings@[i];
            let off = (Spot { x: b.at->0.x, y: b.at->0.y }).spec_away(me);
            let far = (Single { bits: 0x4040_0000 }).below(off);
            &&& far ==> {
                &&& p.2 == RunNext::Turned(Turn::Acted)
                &&& as_it_was(st, p)
                &&& exists|k: int|
                    0 <= k < p.1.len() && #[trigger] p.1[k] == (Deed::HeadFor {
                        at: b.at->0,
                        within: Single { bits: 0x3fc0_0000 },
                        name: run.vendor@,
                    })
            }
            &&& !far && look.cast_in_flight ==> p.2 == RunNext::Turned(Turn::Waited) && as_it_was(
                st,
                p,
            )
            &&& !far && !look.cast_in_flight ==> {
                &&& p.2 == RunNext::Turned(Turn::Acted)
                &&& uses(p, b.guid)
                &&& look.following ==> p.1.len() > 0 && p.1[0] == Deed::StopFollowing
                &&& p.0.run is Some
                &&& p.0.run->0.phase == (Phase::Opening {
                    guid: b.guid,
                    tries: 1,
                    busy: None,
                    asked_over: 0,
                })
                &&& p.0.run->0.since == now
                &&& p.0 == (State {
                    run: Some(Run { phase: p.0.run->0.phase, since: now, ..run }),
                    ..st
                })
            }
        },
    }
}

/// A step where a run came to a stop: there it looks for the vendor; on a road that
/// was broken off it goes on, unless the character is busy or was sent on within
/// five seconds; on a road that ended short it gives the counter up.
pub open spec fn stop_is_right(
    st: State,
    run: Run,
    look: RunLook,
    me: Spot,
    now: Moment,
    p: Played,
) -> bool {
    let there = run.at.spec_away(me).at_most(Single { bits: 0x420c_0000 });
    let lately = run.walked_on is Some && now < run.walked_on->0 + 5_000_000_000;
    &&& there ==> there_is_right(st, run, look, me, now, p)
    &&& !there && !look.broken_off ==> p.2 == RunNext::Leave(Some(Left::NotGotTo)) && as_it_was(
        st,
        p,
    )
    &&& !there && look.broken_off && (look.busy || lately) ==> p.2 == RunNext::Turned(Turn::Waited)
        && as_it_was(st, p)
    &&& !there && look.broken_off && !look.busy && !lately ==> p.2 == RunNext::WalkOn(run.at)
        && as_it_was(st, p)
}

proof fn lemma_there(st: State, run: Run, look: RunLook, me: Spot, now: Moment)
    ensures
        there_is_right(
            st,
            run,
            look,
            me,
            now,
            crate::run::played_there(st, run, look, me, now),
        ),
{
    let p = crate::run::played_there(st, run, look, me, now);
    match vendor_of(look.beings@, run.vendor@, run.at, look.beings@.len()) {
        None => {},
        Some(i) => {
            let b = look.beings@[i];
            let spot = b.at->0;
            if (Single { bits: 0x4040_0000 }).below(spot.spec_flat().spec_away(me)) {
                assert(p.1[0] == (Deed::HeadFor {
                    at: spot,
                    within: Single { bits: 0x3fc0_0000 },
                    name: run.vendor@,
                }));
            } else if !look.cast_in_flight {
                if look.following {
                    assert(p.1[1] == Deed::UseObject(b.guid));
                } else {
                    assert(p.1[0] == Deed::UseObject(b.guid));
                }
            }
        },
    }
}

proof fn lemma_stopped(st: State, run: Run, look: RunLook, me: Spot, now: Moment)
    ensures
        stop_is_right(
            st,
            run,
            look,
            me,
            now,
            crate::run::played_stopped(st, run, look, me, now),
        ),
{
    lemma_there(st, run, look, me, now);
}

/// On its way to a counter a run gives the walk up after four minutes; it lets a
/// journey go on; out of a dungeon it goes on to where it was bound; and where it
/// has come to a stop it sees whether it is there.
pub proof fn law_a_run_goes_to_its_counter(st: State, look: RunLook, now: Moment, p: Played)
    requires
        p == played(st, look, now),
        st.run is Some,
        look.me is Some,
        st.run->0.phase is Going,
    ensures
        ({
            let run = st.run->0;
            let late = now > run.since + 240_000_000_000;
            &&& late ==> p.2 == RunNext::Leave(Some(Left::TooLong)) && breaks_off(p) && as_it_was(
                st,
                p,
            )
            &&& !late && look.traveling ==> p.2 == RunNext::Turned(Turn::Waited) && as_it_was(
                st,
                p,
            )
            &&& !late && !look.traveling && st.after_out is Some ==> p.2 == RunNext::TravelOn(
                st.after_out->0,
            ) && p.0 == (State { after_out: None, ..st }) && uses_nothing(p)
            &&& !late && !look.traveling && st.after_out is None ==> stop_is_right(
                st,
                run,
                look,
                look.me->0,
                now,
                p,
            )
        }),
{
    lemma_stopped(st, st.run->0, look, look.me->0, now);
    if now > st.run->0.since + 240_000_000_000 {
        assert(p.1[1] == Deed::CancelTravel);
    }
}

/// At a counter that was asked to open, a run looks its things over once the
/// window stands open. It asks over three times at most where the counter said it
/// was busy, three seconds after and with no cast in the air; otherwise it waits
/// twelve seconds, asks once more, and after two tries gives the counter up. Each
/// asking is counted and timed.
pub proof fn law_a_run_opens_its_counter(st: State, look: RunLook, now: Moment, p: Played)
    requires
        p == played(st, look, now),
        st.run is Some,
        look.me is Some,
        st.run->0.phase is Opening,
    ensures
        ({
            let run = st.run->0;
            let guid = run.phase->guid;
            let tries = run.phase->tries;
            let busy = run.phase->busy;
            let over = run.phase->asked_over;
            let open = look.window == Some(guid);
            let put_off = busy is Some && over < 3;
            let asks_over = !open && put_off && !look.cast_in_flight && now >= busy->0
                + 3_000_000_000;
            let late = !open && !put_off && now > run.since + 12_000_000_000;
            &&& open ==> p.2 == RunNext::LookOver && as_it_was(st, p)
            &&& asks_over ==> {
                &&& p.2 == RunNext::Turned(Turn::Acted)
                &&& uses(p, guid)
                &&& p.0 == (State {
                    run: Some(
                        Run {
                            phase: Phase::Opening {
                                guid,
                                tries,
                                busy: None,
                                asked_over: (over + 1) as u32,
                            },
                            since: now,
                            ..run
                        },
                    ),
                    ..st
                })
            }
            &&& late && tries < 2 ==> {
                &&& p.2 == RunNext::Turned(Turn::Acted)
                &&& uses(p, guid)
                &&& p.0 == (State {
                    run: Some(
                        Run {
                            phase: Phase::Opening {
                                guid,
                                tries: (tries + 1) as u32,
                                busy: None,
                                asked_over: over,
                            },
                            since: now,
                            ..run
                        },
                    ),
                    ..st
                })
            }
            &&& late && tries >= 2 ==> p.2 == RunNext::Leave(Some(Left::NoTrade)) && as_it_was(
                st,
                p,
            )
            &&& !open && !asks_over && !late ==> p.2 == RunNext::Turned(Turn::Waited)
                && as_it_was(st, p)
        }),
{
    let guid = st.run->0.phase->guid;
    if p.2 == RunNext::Turned(Turn::Acted) {
        assert(p.1[0] == Deed::UseObject(guid));
    }
}

/// A run waits for what is being appraised, for ten seconds at most, before it
/// pours together; and for the counter before it trades.
pub proof fn law_a_run_waits_to_sell(st: State, look: RunLook, now: Moment, p: Played)
    requires
        p == played(st, look, now),
        st.run is Some,
        look.me is Some,
    ensures
        as_it_was(st, p) || st.run->0.phase is Going || st.run->0.phase is Opening,
        st.run->0.phase is Appraising ==> (p.2 == RunNext::Pour <==> !look.unappraised || now
            >= st.run->0.since + 10_000_000_000) && (p.2 == RunNext::Pour || p.2
            == RunNext::Turned(Turn::Waited)),
        st.run->0.phase is Selling ==> (p.2 == RunNext::Trade <==> !look.vendor_busy) && (p.2
            == RunNext::Trade || p.2 == RunNext::Turned(Turn::Waited)),
{
}

/// Without a run there is nothing to go on with, and without a place to stand on
/// nothing is done yet.
pub proof fn law_nothing_is_done_without_a_run(st: State, look: RunLook, now: Moment, p: Played)
    requires
        p == played(st, look, now),
        st.run is None || look.me is None,
    ensures
        p.0 == st && p.1.len() == 0,
        st.run is None ==> p.2 == RunNext::Turned(Turn::Over),
        st.run is Some ==> p.2 == RunNext::Turned(Turn::Waited),
{
}

/// A journey that was taken up again goes on where there is a way, and where there
/// is none the run has come to a stop.
pub proof fn law_a_run_travels_on(st: State, look: RunLook, way: bool, now: Moment, p: Played)
    requires
        p == traveled_on(st, look, way, now),
    ensures
        st.run is None || look.me is None ==> p.2 == RunNext::Turned(Turn::Over) && p.0 == st,
        st.run is Some && look.me is Some && way ==> p.2 == RunNext::Turned(Turn::Waited)
            && as_it_was(st, p),
        st.run is Some && look.me is Some && !way ==> stop_is_right(
            st,
            st.run->0,
            look,
            look.me->0,
            now,
            p,
        ),
{
    if st.run is Some && look.me is Some {
        lemma_stopped(st, st.run->0, look, look.me->0, now);
    }
}

/// A run sent on again remembers when where there is a way, and gives the counter
/// up where there is none.
pub proof fn law_a_run_walks_on(st: State, me: Spot, way: bool, now: Moment, p: Played)
    requires
        p == walked_on(st, me, way, now),
        st.run is Some,
    ensures
        way ==> p.2 == RunNext::Turned(Turn::Acted) && p.0 == (State {
            run: Some(Run { walked_on: Some(now), ..st.run->0 }),
            ..st
        }),
        !way ==> p.2 == RunNext::Leave(Some(Left::NotGotTo)) && p.0 == st,
        uses_nothing(p),
{
}

/// Once its things are looked over a run waits for their appraisals, from now.
pub proof fn law_a_run_looks_its_things_over(st: State, n: usize, now: Moment, p: Played)
    requires
        p == looked_over(st, n, now),
    ensures
        st.run is Some ==> p.2 == RunNext::Turned(Turn::Acted) && p.0 == (State {
            run: Some(Run { phase: Phase::Appraising, since: now, ..st.run->0 }),
            ..st
        }),
        st.run is None ==> p.2 == RunNext::Turned(Turn::Over) && p.0 == st && p.1.len() == 0,
{
}

/// A step holds a counter back for eight minutes.
pub open spec fn holds_back(p: Played, at: Spot) -> bool {
    exists|i: int|
        0 <= i < p.1.len() && #[trigger] p.1[i] == (Deed::HoldVendor {
            spot: at.spec_spot(),
            span: 480_000_000_000,
        })
}

/// Once all is poured together a run sells. A counter that buys none of it is held
/// back, and a run that came to sell leaves it.
pub proof fn law_a_run_sells_what_is_bought(
    st: State,
    did: Poured,
    n: usize,
    carrying: usize,
    now: Moment,
    p: Played,
)
    requires
        p == poured(st, did, n, carrying, now),
        st.run is Some,
    ensures
        ({
            let run = st.run->0;
            let none = did is Settled && n == 0 && carrying > 0;
            &&& did is Acting ==> p.2 == RunNext::Turned(Turn::Acted) && p.0 == st
            &&& did is Waiting ==> p.2 == RunNext::Turned(Turn::Waited) && p.0 == st
            &&& holds_back(p, run.at) <==> none
            &&& none && run.errand == Errand::Sell ==> p.2 == RunNext::Leave(Some(Left::BuysNone))
                && p.0 == st
            &&& did is Settled && !(none && run.errand == Errand::Sell) ==> {
                &&& p.2 == RunNext::Turned(Turn::Waited)
                &&& p.0 == (State {
                    run: Some(Run { phase: Phase::Selling, since: now, ..run }),
                    ..st
                })
                &&& exists|i: int| 0 <= i < p.1.len() && #[trigger] p.1[i] == Deed::NewShop
            }
        }),
{
    let run = st.run->0;
    if did is Settled {
        let none = n == 0 && carrying > 0;
        if none {
            assert(p.1[1] == (Deed::HoldVendor {
                spot: run.at.spec_spot(),
                span: 480_000_000_000,
            }));
            if run.errand != Errand::Sell {
                assert(p.1[2] == Deed::NewShop);
            }
        } else {
            assert(p.1[0] == Deed::NewShop);
        }
    }
}

/// A trade that is over closes the counter, counts what was sold and ends the stop;
/// one that was refused is told of and tried otherwise; one that went through is
/// timed and goes on.
pub proof fn law_a_run_trades_until_it_is_done(
    st: State,
    saying: String,
    trade: Trade,
    now: Moment,
    p: Played,
)
    requires
        p == traded(st, saying, trade, now),
        st.run is Some,
    ensures
        ({
            let run = st.run->0;
            &&& p.0.last_saying == saying
            &&& match trade {
                Trade::Close { sold } => {
                    &&& p.2 == RunNext::Leave(None)
                    &&& p.0.run is Some
                    &&& run.sold + sold <= u32::MAX ==> p.0.run->0.sold == run.sold + sold
                    &&& p.0 == (State {
                        run: Some(Run { sold: p.0.run->0.sold, ..run }),
                        last_saying: saying,
                        ..st
                    })
                    &&& p.1.len() == 2 && p.1[0] == Deed::CloseVendor && p.1[1] == Deed::NewShop
                },
                Trade::Refused { act } => {
                    &&& p.2 == RunNext::Turned(Turn::Waited)
                    &&& p.0 == (State { last_saying: saying, ..st })
                    &&& p.1.len() == 2 && p.1[0] is Note && p.1[1] == Deed::ShopRefused
                },
                Trade::Done => {
                    &&& p.2 == RunNext::Turned(Turn::Acted)
                    &&& p.0 == (State {
                        run: Some(
                            Run {
                                last_sell: Some(now),
                                since: now,
                                phase: Phase::Selling,
                                ..run
                            },
                        ),
                        last_saying: saying,
                        ..st
                    })
                    &&& p.1.len() == 0
                },
            }
        }),
{
}

/// A step is carried out as it was worked out: the state it leaves, what it orders
/// behind what was ordered, and what comes next.
pub proof fn law_a_step_is_carried_out(
    before: State,
    after: State,
    given: Seq<Order>,
    orders: Seq<Order>,
    r: RunNext,
    p: Played,
)
    requires
        plays(before, after, given, orders, r, p),
    ensures
        after == p.0,
        r == p.2,
        deeds(orders).len() == given.len() + p.1.len(),
        forall|i: int| 0 <= i < given.len() ==> (#[trigger] deeds(orders)[i]) == given[i]@,
        forall|i: int|
            0 <= i < p.1.len() ==> deeds(orders)[given.len() + i] == #[trigger] p.1[i],
{
}

} // verus!
