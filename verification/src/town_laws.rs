//! What holds of when a run to town begins, goes on and ends.

use crate::clock::{spec_since, Moment, Span};
use crate::config::Growth;
use crate::counters::{Errand, Want};
use crate::logistics::{GroupMode, Stage};
use crate::loot_laws::{law_a_sale_run_is_worth_its_way, worth_a_run};
use crate::orders::{deeds, Deed, Order};
use crate::run::Left;
use crate::single::Single;
use crate::state::{NeedsMemory, Run, State, Unwanted};
use crate::stops::{
    any_urgent, chooses, counter_left, is_next_run, next_pick, run_put_away, spec_stranded, stopped,
    urgent_names, LeaveLook, NextStop, StopNext,
};
use crate::townrun::{
    carries_out, decided, lifted, remembered, sale_clock, waited, weighed, why_go, Decided,
    TownLook, TownNext,
};
use crate::vendors::{picked, Field, Stop};
use crate::wares::Need;
use vstd::prelude::*;
use vstd::string::*;

verus! {

/// Something is needed before anything else is done.
pub open spec fn in_need(needs: Seq<Need>) -> bool {
    exists|i: int| 0 <= i < needs.len() && (#[trigger] needs[i]).urgent
}

/// A character is stuck: it needs something at once, and has neither money nor
/// anything to sell.
pub open spec fn is_stuck(needs: Seq<Need>, spendable: u32, to_sell: nat) -> bool {
    in_need(needs) && spendable == 0 && to_sell == 0
}

/// How long loot has been carried: from when there first was any, and not at all
/// where there is none.
pub open spec fn carried(st: State, to_sell: nat, now: Moment) -> Option<Span> {
    if to_sell == 0 {
        None
    } else {
        match st.sale_since {
            Some(t) => Some(
                if now >= t {
                    (now - t) as u64
                } else {
                    0
                },
            ),
            None => Some(0),
        }
    }
}

/// How long a character waits between two runs.
pub open spec fn rest(st: State) -> int {
    if st.mode is Hunting {
        480_000_000_000
    } else if st.run_was_futile {
        300_000_000_000
    } else {
        0
    }
}

/// A character that stopped in town is looked at every five seconds, and set going
/// again once it is no longer stuck.
pub open spec fn is_up(st: State, look: TownLook, needs: Seq<Need>, now: Moment) -> bool {
    st.stopped_in_town ==> {
        &&& !(st.stopped_looked is Some && now < st.stopped_looked->0 + 5_000_000_000)
        &&& !is_stuck(needs, look.spendable, look.salables@.len())
    }
}

/// A character may set out: it is up, it can carry what it would buy, it has
/// nothing else in hand, it has rested since the last run, it is not waiting to try
/// a vendor again, and a counter has somewhere to put the money.
pub open spec fn may_set_out(st: State, look: TownLook, needs: Seq<Need>, now: Moment) -> bool {
    &&& is_up(st, look, needs, now)
    &&& st.too_heavy ==> look.burden_room > 0 || needs.len() == 0
    &&& !look.busy && !look.traveling && st.bound is None
    &&& st.stopped_in_town || st.last_run is None || rest(st) == 0 || now >= st.last_run->0 + rest(
        st,
    )
    &&& st.next_run is None || now >= st.next_run->0
    &&& look.room_anywhere > 0
}

/// There is a reason to go. One of a party that restocks together goes when the
/// party restocks, unless somebody else does the shopping; one alone when its pack
/// is full, when it carries as much as it means to, when it needs something at
/// once, or when its loot is worth a run.
pub open spec fn has_reason(
    st: State,
    look: TownLook,
    cfg: Growth,
    needs: Seq<Need>,
    now: Moment,
) -> bool {
    if look.together {
        &&& st.mode is Restocking
        &&& st.mode == GroupMode::Restocking(Stage::Shopping) || !look.by_quartermaster
            || look.is_quartermaster
    } else {
        ||| look.full
        ||| look.laden
        ||| in_need(needs)
        ||| worth_a_run(look.salables@, carried(st, look.salables@.len(), now), cfg)
    }
}

proof fn lemma_reasons(st: State, look: TownLook, cfg: Growth, needs: Seq<Need>, now: Moment)
    ensures
        any_urgent(needs) == in_need(needs),
        spec_stranded(needs, look.spendable, look.salables@.len()) == is_stuck(
            needs,
            look.spendable,
            look.salables@.len(),
        ),
        carried(st, look.salables@.len(), now) == match sale_clock(
            st.sale_since,
            look.salables@.len(),
            now,
        ) {
            Some(t) => Some(spec_since(now, t)),
            None => None,
        },
{
}

/// A run begins just when a character may set out and has a reason to.
pub proof fn law_a_run_begins_with_a_reason(
    st: State,
    look: TownLook,
    cfg: Growth,
    needs: Seq<Need>,
    now: Moment,
    d: Decided,
)
    requires
        d == decided(st, look, cfg, needs, now),
    ensures
        d.next is Some <==> may_set_out(st, look, needs, now) && has_reason(
            st,
            look,
            cfg,
            needs,
            now,
        ),
{
    reveal(why_go);
    reveal(weighed);
    reveal(waited);
    reveal(lifted);
    law_a_sale_run_is_worth_its_way(
        look.salables@,
        carried(st, look.salables@.len(), now),
        cfg,
    );
    lemma_reasons(st, look, cfg, needs, now);
}

/// A run is for selling where there is anything to sell and the pack is full, as
/// much is carried as is meant to be, or the loot is worth a run and nothing is
/// needed at once by one that goes alone; otherwise it is for buying. It goes
/// further than 600 metres for anything but loot alone. It goes without knowing
/// what it will find where the pack is full or the character is stuck.
pub proof fn law_what_a_run_is_for(
    st: State,
    look: TownLook,
    cfg: Growth,
    needs: Seq<Need>,
    now: Moment,
    d: Decided,
)
    requires
        d == decided(st, look, cfg, needs, now),
        d.next is Some,
    ensures
        ({
            let t = d.next->0;
            let to_sell = look.salables@.len();
            let worth = worth_a_run(look.salables@, carried(st, to_sell, now), cfg);
            &&& t.needs == needs
            &&& t.errand == Errand::Sell <==> to_sell > 0 && (look.full || look.laden || (worth && (
            look.together || !in_need(needs))))
            &&& t.within == if !look.together && !look.full && !look.laden && !in_need(needs) {
                Some(Single { bits: 0x4416_0000 })
            } else {
                None
            }
            &&& t.go_anyway <==> look.full || is_stuck(needs, look.spendable, to_sell)
        }),
{
    reveal(why_go);
    reveal(weighed);
    reveal(waited);
    reveal(lifted);
    law_a_sale_run_is_worth_its_way(
        look.salables@,
        carried(st, look.salables@.len(), now),
        cfg,
    );
    lemma_reasons(st, look, cfg, needs, now);
}

/// What deciding on a run changes of a character: it is no longer too heavy nor
/// stopped once it may set out, and from when there is loot to sell is remembered
/// until there is none. Nothing else of it is touched but that one set going again
/// starts its rest anew.
pub proof fn law_what_deciding_on_a_run_changes(
    st: State,
    look: TownLook,
    cfg: Growth,
    needs: Seq<Need>,
    now: Moment,
    d: Decided,
)
    requires
        d == decided(st, look, cfg, needs, now),
    ensures
        d.st == (State {
            sale_since: d.st.sale_since,
            too_heavy: d.st.too_heavy,
            stopped_in_town: d.st.stopped_in_town,
            stopped_looked: d.st.stopped_looked,
            run_was_futile: d.st.run_was_futile,
            last_run: d.st.last_run,
            ..st
        }),
        may_set_out(st, look, needs, now) ==> d.st.sale_since == if look.salables@.len() == 0 {
            None
        } else if st.sale_since is None {
            Some(now)
        } else {
            st.sale_since
        },
        may_set_out(st, look, needs, now) ==> !d.st.too_heavy && !d.st.stopped_in_town,
        !may_set_out(st, look, needs, now) ==> d.st.sale_since == st.sale_since,
        d.st.stopped_in_town <==> st.stopped_in_town && !is_up(st, look, needs, now),
        d.st.last_run == if st.stopped_in_town && is_up(st, look, needs, now) {
            None
        } else {
            st.last_run
        },
        d.st.run_was_futile == (st.run_was_futile && !(st.stopped_in_town && is_up(
            st,
            look,
            needs,
            now,
        ))),
{
    reveal(why_go);
    reveal(weighed);
    reveal(waited);
    reveal(lifted);
    lemma_reasons(st, look, cfg, needs, now);
}

proof fn lemma_urgent_names(needs: Seq<Need>, buyable_only: bool, n: nat)
    requires
        n <= needs.len(),
    ensures
        urgent_names(needs, buyable_only, n) == needs.take(n as int).filter(
            |x: Need| x.urgent && (buyable_only ==> x.buyable),
        ).map_values(|x: Need| x.name@),
    decreases n,
{
    reveal(Seq::filter);
    let p = |x: Need| x.urgent && (buyable_only ==> x.buyable);
    let f = |x: Need| x.name@;
    let all = needs.take(n as int);
    if n > 0 {
        lemma_urgent_names(needs, buyable_only, (n - 1) as nat);
        assert(all.drop_last() =~= needs.take(n - 1));
        assert(all.last() == needs[n - 1]);
    }
    assert(urgent_names(needs, buyable_only, n) =~= all.filter(p).map_values(f));
}

/// What a character is said to be short of is everything it needs at once, of what
/// can be bought where that is asked.
pub proof fn law_what_is_needed_at_once_is_named(needs: Seq<Need>, buyable_only: bool)
    ensures
        urgent_names(needs, buyable_only, needs.len()) == needs.filter(
            |x: Need| x.urgent && (buyable_only ==> x.buyable),
        ).map_values(|x: Need| x.name@),
{
    lemma_urgent_names(needs, buyable_only, needs.len());
    assert(needs.take(needs.len() as int) =~= needs);
}

/// There is something left for a run to do: something is needed at once, the pack
/// is still full, there is something to sell, or one that came to sell has money
/// for something that can be bought.
pub open spec fn has_more_to_do(
    run: Run,
    needs: Seq<Need>,
    look: LeaveLook,
    purse: u32,
    to_sell: nat,
) -> bool {
    ||| in_need(needs)
    ||| look.still_full
    ||| to_sell > 0
    ||| run.errand == Errand::Sell && purse > 0 && exists|i: int|
        0 <= i < needs.len() && (#[trigger] needs[i]).want > 0 && needs[i].buyable
}

/// There is something left to buy.
pub open spec fn has_more_to_buy(run: Run, needs: Seq<Need>, look: LeaveLook, purse: u32) -> bool {
    has_more_to_do(run, needs, look, purse, 0)
}

/// A counter to go on to: within 300 metres of a way out, and not called at yet.
pub open spec fn onward(run: Run, errand: Errand) -> Stop<'static> {
    Stop { errand, within: Some(Single { bits: 0x4396_0000 }), visited: &run.visited }
}

/// A run goes on from a counter just where it has been to fewer than three, there
/// is room in the pack and something left to do, and there is a counter to go on to
/// that is worth it, or the pack is still full. What there is to sell comes before
/// what there is to buy.
pub proof fn law_a_run_goes_on_while_there_is_more_to_do(
    run: Run,
    f: Field,
    wants: Seq<Want>,
    needs: Seq<Need>,
    look: LeaveLook,
    left: Option<Left>,
    r: StopNext,
    asked: Seq<Deed>,
)
    requires
        chooses(run, f, wants, needs, look, left, r, asked),
    ensures
        ({
            let to_sell = f.salables@.len();
            let sell = picked(f, onward(run, Errand::Sell), wants);
            let buy = picked(f, onward(run, Errand::Buy), wants);
            let sells = to_sell > 0 && sell is Some;
            let buys = !sells && (to_sell == 0 || has_more_to_buy(run, needs, look, f.purse))
                && buy is Some;
            let (name, at, seen) = if sells {
                sell->0
            } else {
                buy->0
            };
            let worth = look.still_full || seen.selling > 0 || (seen.cheapest > 0 && seen.funds()
                >= seen.cheapest);
            &&& r is Walk <==> look.room > 0 && run.stops <= 2 && has_more_to_do(
                run,
                needs,
                look,
                f.purse,
                to_sell,
            ) && (sells || buys) && worth
            &&& r is Walk ==> {
                &&& r->Walk_0.vendor == name
                &&& r->Walk_0.at == at
                &&& r->Walk_0.errand == Errand::Sell <==> sells
                &&& r->Walk_0.left == left
                &&& r->Walk_0.loot <==> look.still_full || to_sell > 0
            }
            &&& asked.len() > 0 ==> !(r is Walk) && !worth && (sells || buys)
            &&& look.room > 0 && run.stops <= 2 && has_more_to_do(
                run,
                needs,
                look,
                f.purse,
                to_sell,
            ) && (sells || buys) && !worth ==> asked.len() > 0
        }),
{
    let p = next_pick(run, f, wants, needs, look);
    assert(crate::stops::any_urgent(needs) == in_need(needs));
    assert(crate::stops::wants_more(run, needs, look, f.purse, f.salables@.len()) == (look.room > 0
        && has_more_to_do(run, needs, look, f.purse, f.salables@.len())));
    assert(crate::stops::next_stop(run, Errand::Sell) == onward(run, Errand::Sell));
    assert(crate::stops::next_stop(run, Errand::Buy) == onward(run, Errand::Buy));
}

/// A counter that is left is shut where it stands open, and passed over for a while
/// where there was something wrong with it; one that was asked and has not opened
/// is remembered, so that its window is not wanted when it does.
pub proof fn law_how_a_counter_is_left(st: State, left: Option<Left>, open: bool)
    requires
        st.run is Some,
    ensures
        ({
            let run = st.run->0;
            let (after, asked) = counter_left(st, left, open);
            &&& (exists|i: int| 0 <= i < asked.len() && #[trigger] asked[i] == Deed::CloseVendor)
                <==> open
            &&& (exists|i: int|
                0 <= i < asked.len() && (#[trigger] asked[i]) is SkipVendor) <==> left is Some
            &&& forall|i: int|
                0 <= i < asked.len() ==> match #[trigger] asked[i] {
                    Deed::SkipVendor { spot, why } => spot == run.at.spec_spot(),
                    _ => true,
                }
            &&& after == (State { window_unwanted: after.window_unwanted, ..st })
            &&& run.phase is Opening && !open ==> after.window_unwanted == Some(
                Unwanted { guid: run.phase->guid, asked: run.since },
            )
            &&& open || !(run.phase is Opening) ==> after.window_unwanted == st.window_unwanted
        }),
{
    let asked = counter_left(st, left, open).1;
    if open {
        assert(asked[0] == Deed::CloseVendor);
        if left is Some {
            assert(asked[1] is SkipVendor);
        }
    } else if left is Some {
        assert(asked[0] is SkipVendor);
    }
}

/// A run that goes on to another counter sets out for it now, with one stop more
/// and the counter counted as called at; where it began, what it has sold and why
/// it was made stay.
pub proof fn law_a_run_goes_on_to_another_counter(run: Run, stop: NextStop, now: Moment, next: Run)
    requires
        is_next_run(run, stop, now, next),
        run.stops < 3,
    ensures
        next.vendor == stop.vendor && next.at == stop.at && next.errand == stop.errand,
        next.phase is Going && next.since == now,
        next.stops == run.stops + 1,
        next.last_sell is None && next.walked_on is None,
        next.town == run.town && next.sold == run.sold && next.reason == run.reason,
        next.visited@.len() == run.visited@.len() + 1,
        next.visited@.last() == stop.at,
        forall|i: int|
            0 <= i < run.visited@.len() ==> next.visited@[i] == #[trigger] run.visited@[i],
{
}

/// A run that is over is put away: it came to nothing where nothing was sold and
/// nothing bought, the rest begins now, and it is no longer in anybody's hand.
pub proof fn law_a_run_is_put_away(st: State, run: Run, now: Moment, needs: Vec<Need>)
    ensures
        ({
            let after = run_put_away(st, run, now, needs);
            &&& after.run is None
            &&& after.run_was_futile <==> run.sold == 0 && !st.bought_anything
            &&& !after.bought_anything
            &&& after.last_run == Some(now)
            &&& !after.by_hand
            &&& after == (State {
                run: None,
                run_was_futile: after.run_was_futile,
                bought_anything: false,
                last_run: Some(now),
                by_hand: false,
                needs,
                ..st
            })
        }),
{
}

/// A character that stops in town is looked at from now on, and is bound nowhere.
pub proof fn law_a_stuck_character_stops(st: State, now: Moment)
    ensures
        ({
            let after = stopped(st, now);
            &&& after.stopped_in_town
            &&& after.stopped_looked == Some(now)
            &&& after.bound is None && after.bound_since is None
            &&& after.run == st.run && after.needs == st.needs && after.mode == st.mode
        }),
{
}

/// What is needed is looked at only where it matters: of one that stopped in town
/// when it is looked at, of one that is too heavy, and of one that may set out.
pub proof fn law_when_needs_are_looked_at(
    st: State,
    look: TownLook,
    cfg: Growth,
    needs: Seq<Need>,
    now: Moment,
    d: Decided,
)
    requires
        d == decided(st, look, cfg, needs, now),
    ensures
        st.stopped_in_town ==> (d.asked <==> !(st.stopped_looked is Some && now
            < st.stopped_looked->0 + 5_000_000_000)),
        !st.stopped_in_town ==> (d.asked <==> st.too_heavy || may_set_out(st, look, needs, now)),
        d.next is Some ==> d.asked && d.why is None,
        d.next is None && !st.stopped_in_town ==> d.why is Some,
{
    reveal(why_go);
    reveal(weighed);
    reveal(waited);
    reveal(lifted);
    lemma_reasons(st, look, cfg, needs, now);
}

/// What was decided is carried out: the state is as it was left, but for why the
/// character is held back where there is a reason; what was ordered is ordered; and
/// a run begins just where one was to, for what it was to be.
pub proof fn law_what_was_decided_is_carried_out(
    before: State,
    after: State,
    given: Seq<Order>,
    orders: Seq<Order>,
    r: TownNext,
    d: Decided,
)
    requires
        carries_out(before, after, given, orders, r, d),
    ensures
        after == (State { held_back: after.held_back, ..d.st }),
        d.why is Some ==> after.held_back@ == d.why->0,
        d.why is None ==> after.held_back == before.held_back,
        deeds(orders) == deeds(given) + d.deeds,
        d.next is None <==> !(r is Start),
        d.next is Some ==> {
            let t = r->Start_0;
            &&& t.needs@ == d.next->0.needs && t.reason@ == d.next->0.reason
            &&& t.errand == d.next->0.errand && t.within == d.next->0.within
            &&& t.go_anyway == d.next->0.go_anyway
        },
{
}

/// What is needed is remembered where it was looked at, and otherwise nothing is.
pub proof fn law_what_is_remembered_of_needs(
    before: NeedsMemory,
    after: NeedsMemory,
    counted: Seq<Need>,
    now: Moment,
    asked: bool,
)
    requires
        remembered(before, after, counted, now, asked),
    ensures
        !asked ==> after == before,
        asked ==> before.remembers(now, counted, after),
{
}

} // verus!
