//! From one counter of a run to the next, and home.

use crate::clock::Moment;
use crate::counters::{Errand, Look, Want};
use crate::orders::{deeds, give, note, say, skip_vendor, Deed, Doing, Order};
use crate::place::Spot;
use crate::run::Left;
use crate::single::Single;
use crate::state::{Ground, Phase, Run, State, Unwanted};
use crate::text::{a_few, cat2, cat3, cat4, cat5, count, counted, few, said};
use crate::vendors::{
    all_priced, are_wants, called_at, law_a_pick_serves_the_run, pick_vendor, picked, reach_of,
    wants_of, Field, Pick, Stop, Way,
};
use crate::wares::Need;
use crate::ways::{seen, spec_ways_out, ways_out, Bearings};
use vstd::prelude::*;
use vstd::string::*;

verus! {

/// Most vendors visited in one run.
pub const STOPS_PER_RUN: u32 = 3;

/// 300.0: how near a counter must stand to a way out to be worth stopping at on
/// a run, in metres.
pub const NEAR_A_WAY_OUT: u32 = 0x4396_0000;

/// Something is short enough to be worth a run.
pub open spec fn any_urgent(needs: Seq<Need>) -> bool {
    exists|i: int| 0 <= i < needs.len() && (#[trigger] needs[i]).urgent
}

/// Something is wanted that can be bought.
pub open spec fn any_to_buy(needs: Seq<Need>) -> bool {
    exists|i: int| 0 <= i < needs.len() && (#[trigger] needs[i]).want > 0 && needs[i].buyable
}

pub fn is_any_urgent(needs: &[Need]) -> (r: bool)
    ensures
        r == any_urgent(needs@),
{
    let mut i: usize = 0;
    while i < needs.len()
        invariant
            i <= needs.len(),
            forall|k: int| 0 <= k < i ==> !(#[trigger] needs@[k]).urgent,
        decreases needs.len() - i,
    {
        if needs[i].urgent {
            return true;
        }
        i = i + 1;
    }
    false
}

pub fn is_any_to_buy(needs: &[Need]) -> (r: bool)
    ensures
        r == any_to_buy(needs@),
{
    let mut i: usize = 0;
    while i < needs.len()
        invariant
            i <= needs.len(),
            forall|k: int|
                0 <= k < i ==> !((#[trigger] needs@[k]).want > 0 && needs@[k].buyable),
        decreases needs.len() - i,
    {
        if needs[i].want > 0 && needs[i].buyable {
            return true;
        }
        i = i + 1;
    }
    false
}

/// The names of those of the first `n` needs that are urgent, and, if only
/// those count, can be bought.
pub open spec fn urgent_names(needs: Seq<Need>, buyable_only: bool, n: nat) -> Seq<Seq<char>>
    decreases n,
{
    if n == 0 {
        seq![]
    } else {
        let rest = urgent_names(needs, buyable_only, (n - 1) as nat);
        let need = needs[n - 1];
        if need.urgent && (need.buyable || !buyable_only) {
            rest.push(need.name@)
        } else {
            rest
        }
    }
}

pub fn short_of(needs: &[Need], buyable_only: bool) -> (r: String)
    ensures
        r@ == few(urgent_names(needs@, buyable_only, needs@.len())),
{
    let mut names: Vec<&str> = Vec::new();
    let mut i: usize = 0;
    assert(said(names@) =~= urgent_names(needs@, buyable_only, 0));
    while i < needs.len()
        invariant
            i <= needs.len(),
            said(names@) == urgent_names(needs@, buyable_only, i as nat),
        decreases needs.len() - i,
    {
        if needs[i].urgent && (needs[i].buyable || !buyable_only) {
            let ghost so_far = names@;
            names.push(needs[i].name.as_str());
            assert(said(names@) =~= said(so_far).push(needs@[i as int].name@));
        }
        i = i + 1;
    }
    a_few(names.as_slice())
}

/// The character is stuck: short of something it needs to go on hunting, with
/// no money to buy it and nothing left to sell.
pub open spec fn spec_stranded(needs: Seq<Need>, spendable: u32, to_sell: nat) -> bool {
    any_urgent(needs) && spendable == 0 && to_sell == 0
}

/// Whether the character is stuck: short of something it needs to go on
/// hunting, with no money to buy it and nothing left to sell. This is the one
/// thing it gives up over, and giving up means stopping in town.
pub fn stranded(needs: &[Need], spendable: u32, to_sell: usize) -> (r: bool)
    ensures
        r == spec_stranded(needs@, spendable, to_sell as nat),
{
    spendable == 0 && to_sell == 0 && is_any_urgent(needs)
}

/// A window that comes for a run that is over while its counter was still being
/// asked is nobody's.
pub open spec fn window_left(run: Run, open: bool, before: Option<Unwanted>) -> Option<Unwanted> {
    match run.phase {
        Phase::Opening { guid, .. } => if open {
            before
        } else {
            Some(Unwanted { guid, asked: run.since })
        },
        _ => before,
    }
}

/// The run is over while its counter was still being asked for its window. A
/// window that comes now is nobody's: remember which, so that it is closed when
/// it does.
pub fn window_no_longer_wanted(st: &mut State, phase: Phase, asked: Moment, open: bool)
    ensures
        *final(st) == (State {
            window_unwanted: match phase {
                Phase::Opening { guid, .. } => if open {
                    old(st).window_unwanted
                } else {
                    Some(Unwanted { guid, asked })
                },
                _ => old(st).window_unwanted,
            },
            ..*old(st)
        }),
{
    if let Phase::Opening { guid, .. } = phase {
        if !open {
            st.window_unwanted = Some(Unwanted { guid, asked });
        }
    }
}

/// How a counter was left, as said of it.
pub open spec fn left_words(vendor: Seq<char>, left: Left) -> Seq<char> {
    vendor + " "@ + left.words()
}

/// Leaving a counter: what is remembered, and what is asked for.
pub open spec fn counter_left(st: State, left: Option<Left>, open: bool) -> (State, Seq<Deed>) {
    let run = st.run->0;
    let shut = if open {
        seq![Deed::CloseVendor]
    } else {
        seq![]
    };
    let skip = match left {
        Some(why) => seq![
            Deed::SkipVendor { spot: run.at.spec_spot(), why: left_words(run.vendor@, why) },
        ],
        None => seq![],
    };
    (
        State { window_unwanted: window_left(run, open, st.window_unwanted), ..st },
        shut + skip,
    )
}

/// Leave a counter: its window closed or no longer wanted, and the counter left
/// alone for a while where it was no use.
pub fn leave_counter(st: &mut State, left: Option<Left>, open: bool, out: &mut Vec<Order>)
    requires
        old(st).run is Some,
    ensures
        (*final(st), deeds(final(out)@)) == (
            counter_left(*old(st), left, open).0,
            deeds(old(out)@) + counter_left(*old(st), left, open).1,
        ),
{
    let ghost p = counter_left(*st, left, open);
    if let Some(run) = &st.run {
        let phase = run.phase;
        let asked: u64 = run.since;
        if open {
            give(out, Order::CloseVendor);
        }
        if let Some(why) = left {
            skip_vendor(out, run.at, cat3(run.vendor.as_str(), " ", why.label()));
        }
        window_no_longer_wanted(st, phase, asked, open);
    }
    assert(deeds(out@) =~= deeds(old(out)@) + p.1);
}

/// What leaving a counter sees.
#[derive(Clone, Copy, Debug, PartialEq, Eq, Structural)]
pub struct LeaveLook {
    /// The pack is low on room.
    pub still_full: bool,
    /// How many slots are free anywhere.
    pub room: u32,
}

/// There is reason to call at another counter.
pub open spec fn wants_more(
    run: Run,
    needs: Seq<Need>,
    look: LeaveLook,
    purse: u32,
    to_sell: nat,
) -> bool {
    look.room > 0 && (any_urgent(needs) || look.still_full || to_sell > 0 || more_to_buy(
        run,
        needs,
        purse,
    ))
}

/// A run made to sell buys on the way home what is wanted and can be paid for.
pub open spec fn more_to_buy(run: Run, needs: Seq<Need>, purse: u32) -> bool {
    run.errand == Errand::Sell && any_to_buy(needs) && purse > 0
}

/// The stop that comes next, for one errand.
pub open spec fn next_stop(run: Run, errand: Errand) -> Stop<'static> {
    Stop { errand, within: Some(Single { bits: NEAR_A_WAY_OUT }), visited: &run.visited }
}

/// The next counter: one to sell at first, so that what it fetches is there to
/// spend, and when nobody in reach buys any of it, one to shop at.
pub open spec fn next_pick(
    run: Run,
    f: Field,
    wants: Seq<Want>,
    needs: Seq<Need>,
    look: LeaveLook,
) -> Option<(Errand, (String, Spot, Look))> {
    let to_sell = f.salables@.len() > 0;
    let to_buy = any_urgent(needs) || look.still_full || more_to_buy(run, needs, f.purse);
    let sell = picked(f, next_stop(run, Errand::Sell), wants);
    let buy = picked(f, next_stop(run, Errand::Buy), wants);
    if to_sell && sell is Some {
        Some((Errand::Sell, sell->0))
    } else if (!to_sell || to_buy) && buy is Some {
        Some((Errand::Buy, buy->0))
    } else {
        None
    }
}

/// The next counter of a run, for which a walk is to be planned.
#[derive(Clone, Debug)]
pub struct NextStop {
    pub errand: Errand,
    pub vendor: String,
    pub at: Spot,
    /// The forecast, in words.
    pub tell: String,
    /// The pack is full, or there is more to sell.
    pub loot: bool,
    /// Why the last counter was left.
    pub left: Option<Left>,
}

/// What a run comes to when it is done with a counter.
#[derive(Clone, Debug)]
pub enum StopNext {
    /// A walk to the next counter is to be planned.
    Walk(NextStop),
    /// There is no next counter.
    NoMore,
}

/// What a next stop says: what for, where, the forecast, and how the last
/// counter was left.
pub open spec fn is_stop(
    stop: NextStop,
    pick: (Errand, (String, Spot, Look)),
    look: LeaveLook,
    to_sell: nat,
    left: Option<Left>,
) -> bool {
    let (errand, (vendor, at, seen)) = pick;
    &&& stop.errand == errand
    &&& stop.vendor == vendor
    &&& stop.at == at
    &&& stop.tell@ == seen.told_as()
    &&& stop.loot == (look.still_full || to_sell > 0)
    &&& stop.left == left
}

/// What is asked for when a counter is passed over.
pub open spec fn passed_over(vendor: Seq<char>, at: Spot, tell: Seq<char>) -> Seq<Deed> {
    seq![
        Deed::Note("skipping "@ + vendor + ": "@ + tell),
        Deed::SkipVendor { spot: at.spec_spot(), why: "could not get there"@ },
    ]
}

/// What choosing the next counter comes to: a walk to be planned, or none, with
/// what is asked for on the way.
pub open spec fn chooses(
    run: Run,
    f: Field,
    wants: Seq<Want>,
    needs: Seq<Need>,
    look: LeaveLook,
    left: Option<Left>,
    r: StopNext,
    asked: Seq<Deed>,
) -> bool {
    let pick = next_pick(run, f, wants, needs, look);
    let to_sell = f.salables@.len();
    if !wants_more(run, needs, look, f.purse, to_sell) || run.stops >= STOPS_PER_RUN || pick
        is None {
        r is NoMore && asked.len() == 0
    } else {
        let (_, (vendor, at, seen)) = pick->0;
        if look.still_full || seen.worth_going() {
            r is Walk && is_stop(r->Walk_0, pick->0, look, to_sell, left) && asked.len() == 0
        } else {
            r is NoMore && asked == passed_over(vendor@, at, seen.told_as())
        }
    }
}

fn pass_over(out: &mut Vec<Order>, vendor: &str, at: Spot, tell: &str)
    ensures
        deeds(final(out)@) == deeds(old(out)@) + passed_over(vendor@, at, tell@),
{
    note(out, cat4("skipping ", vendor, ": ", tell));
    skip_vendor(out, at, String::from_str("could not get there"));
    assert(deeds(out@) =~= deeds(old(out)@) + passed_over(vendor@, at, tell@));
}

/// The run is done with a counter: choose the next of the town when something
/// is still wanted. The next counter is chosen by what is still on the list,
/// and looked for from every way out the character has; it is walked to only
/// when there is reason to think it can help, and a full pack is reason enough
/// on its own.
pub fn grow_run_next(
    st: &mut State,
    left: Option<Left>,
    open: bool,
    f: &Field,
    needs: &[Need],
    look: &LeaveLook,
    out: &mut Vec<Order>,
) -> (r: StopNext)
    requires
        old(st).run is Some,
        all_priced(f.stands@, f.salables@),
    ensures
        *final(st) == counter_left(*old(st), left, open).0,
        exists|wants: Seq<Want>, asked: Seq<Deed>|
            {
                &&& are_wants(wants, needs@, needs@.len())
                &&& #[trigger] chooses(old(st).run->0, *f, wants, needs@, *look, left, r, asked)
                &&& deeds(final(out)@) == deeds(old(out)@) + counter_left(*old(st), left, open).1
                    + asked
            },
{
    let ghost run = st.run->0;
    leave_counter(st, left, open, out);
    let ghost given = deeds(out@);
    let wants = wants_of(needs);
    let to_sell: usize = f.salables.len();
    let (stops, run_errand) = match &st.run {
        Some(r) => (r.stops, r.errand),
        None => (STOPS_PER_RUN, Errand::Buy),
    };
    let urgent = is_any_urgent(needs);
    let top_up = run_errand == Errand::Sell && f.purse > 0 && is_any_to_buy(needs);
    let wanting = look.room > 0 && (urgent || look.still_full || to_sell > 0 || top_up);
    if !wanting || stops >= STOPS_PER_RUN {
        proof {
            assert(deeds(out@) =~= given + Seq::<Deed>::empty());
            assert(chooses(
                run,
                *f,
                wants@,
                needs@,
                *look,
                left,
                StopNext::NoMore,
                Seq::<Deed>::empty(),
            ));
        }
        return StopNext::NoMore;
    }
    let to_buy = urgent || look.still_full || top_up;
    let mut pick: Option<(Errand, Pick)> = None;
    if let Some(r) = &st.run {
        if to_sell > 0 {
            let stop = Stop {
                errand: Errand::Sell,
                within: Some(Single { bits: NEAR_A_WAY_OUT }),
                visited: &r.visited,
            };
            if let Some(p) = pick_vendor(f, &stop, wants.as_slice()) {
                pick = Some((Errand::Sell, p));
            }
        }
        if pick.is_none() && (to_sell == 0 || to_buy) {
            let stop = Stop {
                errand: Errand::Buy,
                within: Some(Single { bits: NEAR_A_WAY_OUT }),
                visited: &r.visited,
            };
            if let Some(p) = pick_vendor(f, &stop, wants.as_slice()) {
                pick = Some((Errand::Buy, p));
            }
        }
    }
    match pick {
        None => {
            proof {
                assert(deeds(out@) =~= given + Seq::<Deed>::empty());
                assert(chooses(
                    run,
                    *f,
                    wants@,
                    needs@,
                    *look,
                    left,
                    StopNext::NoMore,
                    Seq::<Deed>::empty(),
                ));
            }
            StopNext::NoMore
        },
        Some((errand, p)) => {
            let tell = p.look.tell();
            if look.still_full || p.look.worth_going() {
                let next = StopNext::Walk(
                    NextStop {
                        errand,
                        vendor: p.name,
                        at: p.at,
                        tell,
                        loot: look.still_full || to_sell > 0,
                        left,
                    },
                );
                proof {
                    assert(deeds(out@) =~= given + Seq::<Deed>::empty());
                    assert(chooses(
                        run,
                        *f,
                        wants@,
                        needs@,
                        *look,
                        left,
                        next,
                        Seq::<Deed>::empty(),
                    ));
                }
                next
            } else {
                pass_over(out, p.name.as_str(), p.at, tell.as_str());
                proof {
                    assert(chooses(
                        run,
                        *f,
                        wants@,
                        needs@,
                        *look,
                        left,
                        StopNext::NoMore,
                        passed_over(p.name@, p.at, tell@),
                    ));
                }
                StopNext::NoMore
            }
        },
    }
}

/// The run that calls at the next counter.
pub open spec fn is_next_run(run: Run, stop: NextStop, now: Moment, next: Run) -> bool {
    &&& next.visited@ == run.visited@.push(stop.at)
    &&& next == (Run {
        vendor: stop.vendor,
        at: stop.at,
        phase: Phase::Going,
        since: now,
        last_sell: None,
        town: run.town,
        stops: (run.stops + 1) as u32,
        sold: run.sold,
        reason: run.reason,
        errand: stop.errand,
        visited: next.visited,
        walked_on: None,
    })
}

/// What is said on the way to the next counter.
pub open spec fn on_to(vendor: Seq<char>, stop: NextStop) -> Seq<char> {
    let leaving = match stop.left {
        Some(why) => left_words(vendor, why) + "; "@,
        None => seq![],
    };
    let what = if stop.loot {
        "the rest of the loot"@
    } else {
        "the rest"@
    };
    leaving + "on to "@ + stop.vendor@ + " for "@ + what + " -- "@ + stop.tell@
}

/// The walk to the next counter was planned, and the run goes on; or it could
/// not be, and the counter is passed over.
pub fn next_stop_planned(
    st: &mut State,
    stop: NextStop,
    way: bool,
    now: Moment,
    out: &mut Vec<Order>,
) -> (r: bool)
    requires
        old(st).run is Some,
        old(st).run->0.stops < STOPS_PER_RUN,
    ensures
        r == way,
        way ==> {
            &&& final(st).run is Some
            &&& is_next_run(old(st).run->0, stop, now, final(st).run->0)
            &&& *final(st) == (State { run: final(st).run, ..*old(st) })
            &&& deeds(final(out)@) == deeds(old(out)@).push(
                Deed::Say(Doing::Shopping, on_to(old(st).run->0.vendor@, stop)),
            )
        },
        !way ==> {
            &&& *final(st) == *old(st)
            &&& deeds(final(out)@) == deeds(old(out)@) + passed_over(
                stop.vendor@,
                stop.at,
                stop.tell@,
            )
        },
{
    if !way {
        pass_over(out, stop.vendor.as_str(), stop.at, stop.tell.as_str());
        return false;
    }
    if let Some(run) = st.run.take() {
        let leaving = match stop.left {
            Some(why) => cat4(run.vendor.as_str(), " ", why.label(), "; "),
            None => String::new(),
        };
        let what = if stop.loot {
            "the rest of the loot"
        } else {
            "the rest"
        };
        let first = cat4(leaving.as_str(), "on to ", stop.vendor.as_str(), " for ");
        let text = cat4(first.as_str(), what, " -- ", stop.tell.as_str());
        proof {
            reveal_strlit("; ");
            assert(leaving@ =~= match stop.left {
                Some(why) => left_words(run.vendor@, why) + "; "@,
                None => seq![],
            });
            assert(text@ =~= on_to(run.vendor@, stop));
        }
        say(out, Doing::Shopping, text);
        let mut visited = run.visited;
        visited.push(stop.at);
        st.run = Some(
            Run {
                vendor: stop.vendor,
                at: stop.at,
                phase: Phase::Going,
                since: now,
                last_sell: None,
                town: run.town,
                stops: run.stops + 1,
                sold: run.sold,
                reason: run.reason,
                errand: stop.errand,
                visited,
                walked_on: None,
            },
        );
    }
    true
}

/// What the end of a run sees.
pub struct OverLook<'a> {
    pub left: Option<Left>,
    pub still_full: bool,
    pub needs: &'a [Need],
    /// Coin and notes in hand.
    pub spendable: u32,
    /// How many things are carried for a counter.
    pub to_sell: usize,
}

/// What the end of a run says.
pub open spec fn run_done(run: Run, look: OverLook) -> Seq<char> {
    let full = if look.still_full {
        ", pack still full"@
    } else {
        seq![]
    };
    let leaving = match look.left {
        Some(why) => "; "@ + left_words(run.vendor@, why),
        None => seq![],
    };
    "town run done: sold "@ + counted(run.sold as nat) + " item(s)"@ + full + leaving
}

/// What is remembered of a run that is over.
pub open spec fn run_put_away(st: State, run: Run, now: Moment, needs: Vec<Need>) -> State {
    State {
        run_was_futile: run.sold == 0 && !st.bought_anything,
        bought_anything: false,
        last_run: Some(now),
        run: None,
        needs,
        by_hand: false,
        ..st
    }
}

/// What is remembered of a character that stops in town.
pub open spec fn stopped(st: State, now: Moment) -> State {
    State {
        stopped_in_town: true,
        stopped_looked: Some(now),
        bound: None,
        bound_since: None,
        ..st
    }
}

/// What the end of a run comes to.
#[derive(Clone, Debug)]
pub enum OverNext {
    /// A walk back to the ground is to be planned.
    Home(Ground),
    /// Nothing more.
    Over,
}

/// The end of a run: a trip that neither bought nor sold anything is
/// remembered as futile. A run the panel asked for ends where the last counter
/// was. A character short of what it needs with no money and nothing to sell
/// stops in town; any other goes back to its hunting ground. `ground` is the
/// ground it hunts on, if it hunts on one.
pub fn run_over(
    st: &mut State,
    look: &OverLook,
    ground: Option<Ground>,
    now: Moment,
    out: &mut Vec<Order>,
) -> (r: OverNext)
    requires
        old(st).run is Some,
    ensures
        final(st).needs@.len() == 0,
        ({
            let run = old(st).run->0;
            let away = run_put_away(*old(st), run, now, final(st).needs);
            let done = seq![Deed::TidyVendors, Deed::Note(run_done(run, *look))];
            let stuck = spec_stranded(look.needs@, look.spendable, look.to_sell as nat);
            if old(st).by_hand {
                &&& *final(st) == away
                &&& deeds(final(out)@) == deeds(old(out)@) + done
                &&& r is Over
            } else if stuck {
                &&& *final(st) == stopped(away, now)
                &&& deeds(final(out)@) == deeds(old(out)@) + done + seq![
                    Deed::Say(
                        Doing::Shopping,
                        "out of money and short of "@ + few(
                            urgent_names(look.needs@, false, look.needs@.len()),
                        ) + " -- stopping in town"@,
                    ),
                ]
                &&& r is Over
            } else {
                &&& *final(st) == away
                &&& deeds(final(out)@) == deeds(old(out)@) + done
                &&& match ground {
                    Some(g) => r == OverNext::Home(g),
                    None => r is Over,
                }
            }
        }),
        final(st).run is None && !final(st).by_hand && final(st).last_run == Some(now),
        r is Home <==> !old(st).by_hand && ground is Some && (look.spendable > 0 || look.to_sell > 0
            || forall|i: int|
            0 <= i < look.needs@.len() ==> !(#[trigger] look.needs@[i]).urgent),
{
    let ghost run = st.run->0;
    let ghost done = seq![Deed::TidyVendors, Deed::Note(run_done(run, *look))];
    let (sold, vendor) = match &st.run {
        Some(run) => (run.sold, run.vendor.clone()),
        None => (0, String::new()),
    };
    let by_hand = st.by_hand;
    st.run_was_futile = sold == 0 && !st.bought_anything;
    st.bought_anything = false;
    st.last_run = Some(now);
    st.run = None;
    st.needs.clear();
    st.by_hand = false;
    give(out, Order::TidyVendors);
    let number = count(sold as u128);
    let full = if look.still_full {
        ", pack still full"
    } else {
        ""
    };
    let leaving = match look.left {
        Some(why) => cat4("; ", vendor.as_str(), " ", why.label()),
        None => String::new(),
    };
    let text = cat5(
        "town run done: sold ",
        number.as_str(),
        " item(s)",
        full,
        leaving.as_str(),
    );
    proof {
        reveal_strlit("");
        assert(leaving@ =~= match look.left {
            Some(why) => "; "@ + left_words(run.vendor@, why),
            None => seq![],
        });
        assert(text@ =~= run_done(run, *look));
    }
    note(out, text);
    assert(deeds(out@) =~= deeds(old(out)@) + done);
    if by_hand {
        return OverNext::Over;
    }
    if stranded(look.needs, look.spendable, look.to_sell) {
        let short = short_of(look.needs, false);
        st.stopped_in_town = true;
        st.stopped_looked = Some(now);
        st.bound = None;
        st.bound_since = None;
        say(
            out,
            Doing::Shopping,
            cat3("out of money and short of ", short.as_str(), " -- stopping in town"),
        );
        assert(deeds(out@) =~= deeds(old(out)@) + done + seq![deeds(out@).last()]);
        return OverNext::Over;
    }
    match ground {
        Some(g) => OverNext::Home(g),
        None => OverNext::Over,
    }
}

/// The walk back to the hunting ground was planned, or could not be. True when
/// it was.
pub fn home_planned(
    st: &mut State,
    ground: Ground,
    way: bool,
    now: Moment,
    out: &mut Vec<Order>,
) -> (r: bool)
    ensures
        r == way,
        !way ==> *final(st) == *old(st) && final(out)@ == old(out)@,
        way ==> {
            &&& *final(st) == (State {
                bound: Some(ground),
                bound_since: Some(now),
                ..*old(st)
            })
            &&& deeds(final(out)@) == deeds(old(out)@).push(
                Deed::Say(Doing::Traveling, "back to hunt "@ + ground.name@),
            )
        },
{
    if way {
        say(out, Doing::Traveling, cat2("back to hunt ", ground.name.as_str()));
        st.bound = Some(ground);
        st.bound_since = Some(now);
    }
    way
}

/// Where the next stop of a run is looked for from: every way out the character
/// has, and the town the run started in where its own position is not known.
pub fn next_ways(bearings: Option<&Bearings>, town: Spot) -> (r: Vec<Way>)
    ensures
        match bearings {
            Some(b) => seen(r@) == spec_ways_out(*b),
            None => seen(r@) == seq![(town, "in town"@)],
        },
{
    match bearings {
        Some(b) => ways_out(b),
        None => {
            let mut r: Vec<Way> = Vec::new();
            r.push(Way { at: town, name: String::from_str("in town") });
            assert(seen(r@) =~= seq![(town, "in town"@)]);
            r
        },
    }
}

/// A run calls at no more counters than it may, at none of them twice, and at
/// none that stands too far from every way out.
pub proof fn law_a_run_calls_at_few_counters_and_none_twice(
    run: Run,
    f: Field,
    wants: Seq<Want>,
    needs: Seq<Need>,
    look: LeaveLook,
    left: Option<Left>,
    r: StopNext,
    asked: Seq<Deed>,
)
    requires
        chooses(run, f, wants, needs, look, left, r, asked),
        r is Walk,
    ensures
        run.stops < STOPS_PER_RUN,
        !called_at(run.visited@, r->Walk_0.at),
        reach_of(r->Walk_0.at, f.ways@, f.ways@.len()).at_most(Single { bits: NEAR_A_WAY_OUT }),
        look.room > 0,
{
    let (errand, _) = next_pick(run, f, wants, needs, look)->0;
    law_a_pick_serves_the_run(f, next_stop(run, errand), wants);
}

} // verus!
