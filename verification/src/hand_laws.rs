//! What holds of setting out to a counter and of running by hand.

use crate::clock::Moment;
use crate::counters::{Errand, Want};
use crate::hand::{
    being_at, in_reach, is_run_here, panel_errand, panel_trip, past_the_walk, run_stopped,
    still_unwanted, stop_deeds, AtHand,
};
use crate::orders::Deed;
use crate::place::Spot;
use crate::run::Being;
use crate::setting_out::{is_first_run, starts, FirstStop, StartNext};
use crate::single::Single;
use crate::state::{Phase, Run, State, Unwanted};
use crate::vendors::{picked, Field, Stop};
use crate::wares::Need;
use vstd::prelude::*;
use vstd::string::*;

verus! {

proof fn lemma_being(beings: Seq<Being>, guid: u32, i: int)
    requires
        0 <= i <= beings.len(),
        forall|k: int| 0 <= k < i ==> (#[trigger] beings[k]).guid != guid,
    ensures
        match being_at(beings, guid, i) {
            Some(k) => 0 <= k < beings.len() && beings[k].guid == guid && forall|j: int|
                0 <= j < k ==> (#[trigger] beings[j]).guid != guid,
            None => forall|k: int| 0 <= k < beings.len() ==> (#[trigger] beings[k]).guid != guid,
        },
    decreases beings.len() - i,
{
    if i < beings.len() && beings[i].guid != guid {
        lemma_being(beings, guid, i + 1);
    }
}

/// A being's place on the flat.
pub open spec fn place_of(b: Being) -> Spot {
    Spot { x: b.at->0.x, y: b.at->0.y }
}

/// A counter is in reach where its keeper is known to stand within 35 metres of
/// the character; its name and place are the keeper's.
pub proof fn law_which_counter_is_in_reach(me: Option<Spot>, beings: Seq<Being>, guid: u32, i: int)
    requires
        0 <= i < beings.len(),
        beings[i].guid == guid,
        forall|k: int| 0 <= k < i ==> (#[trigger] beings[k]).guid != guid,
    ensures
        in_reach(me, beings, guid) is Some <==> me is Some && beings[i].at is Some && place_of(
            beings[i],
        ).spec_away(me->0).at_most(Single { bits: 0x420c_0000 }),
        in_reach(me, beings, guid) is Some ==> in_reach(me, beings, guid) == Some(
            (beings[i].name, place_of(beings[i])),
        ),
{
    lemma_being(beings, guid, 0);
    if let Some(k) = being_at(beings, guid, 0) {
        assert(k == i) by {
            if k < i {
                assert(beings[k].guid != guid);
            } else if i < k {
                assert(beings[i].guid != guid);
            }
        }
    } else {
        assert(beings[i].guid != guid);
    }
}

/// Nobody's counter is in reach where nobody of that kind is about.
pub proof fn law_no_counter_without_a_keeper(me: Option<Spot>, beings: Seq<Being>, guid: u32)
    requires
        forall|k: int| 0 <= k < beings.len() ==> (#[trigger] beings[k]).guid != guid,
    ensures
        in_reach(me, beings, guid) is None,
{
    lemma_being(beings, guid, 0);
}

/// A run sets out just where the character is somewhere, there is a counter for it,
/// and the trip is worth it or is made in any case. It goes to that counter, for
/// what it was to do, as far as the counter is from the character. Where there is
/// none the rest begins; where it is not worth it the run also came to nothing.
pub proof fn law_when_a_run_sets_out(
    before: State,
    me: Option<Spot>,
    reason: String,
    stop: Stop,
    go_anyway: bool,
    f: Field,
    wants: Seq<Want>,
    now: Moment,
    after: State,
    asked: Seq<Deed>,
    r: StartNext,
)
    requires
        starts(before, me, reason, stop, go_anyway, f, wants, now, after, asked, r),
    ensures
        ({
            let pick = picked(f, stop, wants);
            let (vendor, at, look) = pick->0;
            let worth = go_anyway || look.selling > 0 || (look.cheapest > 0 && look.funds()
                >= look.cheapest);
            &&& r is Walk <==> me is Some && pick is Some && worth
            &&& r is Walk ==> {
                &&& after == before
                &&& r->Walk_0.vendor == vendor
                &&& r->Walk_0.at == at
                &&& r->Walk_0.errand == stop.errand
                &&& r->Walk_0.reason == reason
                &&& r->Walk_0.away == at.spec_away(me->0)
            }
            &&& me is None ==> after == before && asked.len() == 0
            &&& r is Refused && me is Some ==> asked.len() > 0 && asked.last() == Deed::Note(
                r->Refused_0@,
            )
            &&& r is Walk ==> asked.len() == 1 && asked[0] is Note
            &&& me is Some && pick is None ==> after == (State { last_run: Some(now), ..before })
            &&& me is Some && pick is Some && !worth ==> after == (State {
                last_run: Some(now),
                run_was_futile: true,
                ..before
            })
        }),
{
}

/// A run's first counter is where it begins: one stop, nothing sold, gone to now,
/// and counted as called at.
pub proof fn law_a_run_begins_at_its_first_counter(stop: FirstStop, now: Moment, run: Run)
    requires
        is_first_run(stop, now, run),
    ensures
        run.vendor == stop.vendor && run.at == stop.at && run.town == stop.at,
        run.errand == stop.errand && run.reason == stop.reason,
        run.phase is Going && run.since == now,
        run.stops == 1 && run.sold == 0,
        run.last_sell is None && run.walked_on is None,
        run.visited@.len() == 1 && run.visited@[0] == stop.at,
{
}

/// A run begun by hand at an open counter is there already: it waits for the
/// counter's window, asked for once, to buy what is wanted.
pub proof fn law_a_run_by_hand_begins_at_the_counter(c: AtHand, now: Moment, run: Run)
    requires
        is_run_here(c, now, run),
    ensures
        run.vendor == c.name && run.at == c.at && run.town == c.at,
        run.phase == (Phase::Opening { guid: c.guid, tries: 1, busy: None, asked_over: 0 }),
        run.since == now,
        run.stops == 1 && run.sold == 0,
        run.errand == Errand::Buy,
        run.last_sell is None && run.walked_on is None,
        run.visited@.len() == 1 && run.visited@[0] == c.at,
{
}

/// A run asked for by hand is to sell only where there is something to sell and
/// nothing that can be bought is wanted, and it goes in any case.
pub proof fn law_what_a_run_by_hand_is_for(
    needs: Seq<Need>,
    to_sell: nat,
    within: Option<Single>,
)
    ensures
        panel_errand(needs, to_sell) == Errand::Sell <==> to_sell > 0 && forall|i: int|
            0 <= i < needs.len() && (#[trigger] needs[i]).want > 0 ==> !needs[i].buyable,
        ({
            let t = panel_trip(needs, panel_errand(needs, to_sell), within);
            t.go_anyway && t.needs == needs && t.within == within
        }),
{
}

/// A run that is stopped is gone, its rest begins, and nothing is left of where it
/// was bound; a counter that was asked and has not opened is remembered.
pub proof fn law_a_run_that_is_stopped_is_gone(
    st: State,
    run: Run,
    open: bool,
    now: Moment,
    needs: Vec<Need>,
)
    ensures
        ({
            let after = run_stopped(st, run, open, now, needs);
            &&& after.run is None && !after.by_hand && after.after_out is None
            &&& after.last_run == Some(now)
            &&& run.phase is Opening && !open ==> after.window_unwanted == Some(
                Unwanted { guid: run.phase->guid, asked: run.since },
            )
            &&& open || !(run.phase is Opening) ==> after.window_unwanted == st.window_unwanted
            &&& after == (State {
                run: None,
                by_hand: false,
                needs,
                after_out: None,
                last_run: Some(now),
                window_unwanted: after.window_unwanted,
                ..st
            })
        }),
{
}

/// Some orders hold one.
pub open spec fn orders(asked: Seq<Deed>, deed: Deed) -> bool {
    exists|i: int| 0 <= i < asked.len() && #[trigger] asked[i] == deed
}

/// Stopping a run breaks the journey off and clears the shopping; it shuts the
/// window where one stands open and stops following where it was.
pub proof fn law_stopping_a_run_breaks_it_off(vendor: Seq<char>, open: bool, following: bool)
    ensures
        ({
            let asked = stop_deeds(vendor, open, following);
            &&& orders(asked, Deed::NewShop)
            &&& orders(asked, Deed::CancelTravel)
            &&& orders(asked, Deed::CloseVendor) <==> open
            &&& orders(asked, Deed::StopFollowing) <==> following
        }),
{
    let asked = stop_deeds(vendor, open, following);
    assert(asked[0] == Deed::NewShop);
    if open {
        assert(asked[1] == Deed::CloseVendor);
        assert(asked[2] == Deed::CancelTravel);
        if following {
            assert(asked[3] == Deed::StopFollowing);
        }
    } else {
        assert(asked[1] == Deed::CancelTravel);
        if following {
            assert(asked[2] == Deed::StopFollowing);
        }
    }
}

/// A run is past its walk once it is at a counter.
pub proof fn law_when_a_run_is_past_its_walk(st: State)
    ensures
        st.run is None ==> !past_the_walk(st),
        st.run is Some ==> (past_the_walk(st) <==> st.run->0.phase is Opening || st.run->0.phase
            is Appraising || st.run->0.phase is Selling),
{
}

/// A counter stays unwanted until its window has opened, or twelve seconds have
/// gone by since it was asked.
pub proof fn law_how_long_a_window_is_unwanted(st: State, window: Option<u32>, now: Moment)
    ensures
        st.window_unwanted is None ==> still_unwanted(st, window, now) is None,
        st.window_unwanted is Some ==> ({
            let u = st.window_unwanted->0;
            let late = now > u.asked + 12_000_000_000;
            &&& still_unwanted(st, window, now) is None <==> late || window == Some(u.guid)
            &&& still_unwanted(st, window, now) is Some ==> still_unwanted(st, window, now)
                == Some(u)
        }),
{
}

} // verus!
