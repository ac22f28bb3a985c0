//! Whether to run to town, and what for.

use crate::clock::{since, spec_lately, spec_since, Moment, SECOND};
use crate::config::Growth;
use crate::counters::Errand;
use crate::logistics::{GroupMode, Stage};
use crate::orders::{deeds, note, Deed, Order};
use crate::single::Single;
use crate::state::{spec_wait_between_runs, wait_between_runs, NeedsMemory, State};
use crate::stops::{any_urgent, is_any_urgent, short_of, spec_stranded, stranded, urgent_names};
use crate::text::{a_few, cat2, cat3, cat4, cat5, count, counted, few, said, same};
use crate::vendors::IN_TOWN;
use crate::wares::{sale_reason, worth_a_sale_run, Need, Salable};
use vstd::prelude::*;
use vstd::string::*;

verus! {

/// How often a character that has stopped in town looks to see whether its luck
/// has changed.
pub const STOPPED_LOOK_EVERY: u64 = 5_000_000_000;

/// What deciding on a run sees.
pub struct TownLook<'a> {
    /// It has something to fight, or something it is casting at.
    pub busy: bool,
    pub traveling: bool,
    /// What it carries, what it may, and how much more it may be handed.
    pub carrying: u32,
    pub capacity: u32,
    pub burden_room: u32,
    /// The pack is low on room, and how many slots are free anywhere.
    pub full: bool,
    pub room_anywhere: u32,
    /// It carries as much loot as it means to.
    pub laden: bool,
    pub salables: &'a [Salable],
    /// Coin and notes in hand.
    pub spendable: u32,
    /// The party's mode decides when it goes.
    pub together: bool,
    /// One character shops for the party, and this is the one.
    pub by_quartermaster: bool,
    pub is_quartermaster: bool,
}

/// What deciding on a run comes to.
#[derive(Clone, Debug)]
pub enum TownNext {
    /// A run is in progress, and takes its next turn.
    Step,
    /// No run is made.
    Held,
    /// A run is to be made.
    Start(Trip),
}

/// A run to be made.
#[derive(Clone, Debug)]
pub struct Trip {
    pub needs: Vec<Need>,
    pub reason: String,
    pub errand: Errand,
    /// How far from a way out the first counter may stand.
    pub within: Option<Single>,
    /// The trip is made whether or not the forecast says it is worth making.
    pub go_anyway: bool,
}

/// A run to be made, as a value.
pub struct TripSeen {
    pub needs: Seq<Need>,
    pub reason: Seq<char>,
    pub errand: Errand,
    pub within: Option<Single>,
    pub go_anyway: bool,
}

pub open spec fn seen_trip(t: Trip) -> TripSeen {
    TripSeen {
        needs: t.needs@,
        reason: t.reason@,
        errand: t.errand,
        within: t.within,
        go_anyway: t.go_anyway,
    }
}

/// What deciding on a run is: what is remembered but for the reason held back
/// for, whether the needs were asked for, the reason held back
/// for if there is one to say, what is asked for, and what comes of it.
pub struct Decided {
    pub st: State,
    pub asked: bool,
    pub why: Option<Seq<char>>,
    pub deeds: Seq<Deed>,
    pub next: Option<TripSeen>,
}

pub open spec fn held(st: State, asked: bool, why: Seq<char>) -> Decided {
    Decided { st, asked, why: Some(why), deeds: seq![], next: None }
}

/// How long the pack has held loot for a counter is counted from when it is
/// first seen to.
pub open spec fn sale_clock(before: Option<Moment>, to_sell: nat, now: Moment) -> Option<Moment> {
    if to_sell == 0 {
        None
    } else if before is None {
        Some(now)
    } else {
        before
    }
}

/// Why a run is made, what for, and how far it may go; or why none is.
#[verifier::opaque]
pub open spec fn why_go(
    mode: GroupMode,
    because: Seq<char>,
    look: TownLook,
    needs: Seq<Need>,
    sale: Option<Seq<char>>,
) -> Result<(Seq<char>, Errand, Option<Single>), Seq<char>> {
    let own = if look.full || look.laden || sale is Some {
        Errand::Sell
    } else {
        Errand::Buy
    };
    if look.together {
        match mode {
            GroupMode::Hunting => Err("the party is hunting"@),
            GroupMode::Restocking(stage) => if stage != Stage::Shopping && look.by_quartermaster
                && !look.is_quartermaster {
                Err("the quartermaster is doing the shopping"@)
            } else if because.len() == 0 {
                Ok(("the party is restocking"@, own, None))
            } else {
                Ok((because, own, None))
            },
        }
    } else if look.full {
        Ok(("the pack is full"@, Errand::Sell, None))
    } else if look.laden {
        Ok(("carrying as much as it means to"@, Errand::Sell, None))
    } else if any_urgent(needs) {
        Ok(("short of "@ + few(urgent_names(needs, true, needs.len())), Errand::Buy, None))
    } else if sale is Some {
        Ok((sale->0, Errand::Sell, Some(Single { bits: IN_TOWN })))
    } else {
        let things = if look.salables@.len() == 0 {
            seq![]
        } else {
            "; "@ + counted(look.salables@.len())
                + " thing(s) for a counter, not yet worth the trip"@
        };
        Err("nothing urgent (short of "@ + few(names_of(needs)) + things + ")"@)
    }
}

pub open spec fn names_of(needs: Seq<Need>) -> Seq<Seq<char>> {
    needs.map_values(|n: Need| n.name@)
}

/// What becomes of a run once nothing stands in its way: since when the pack
/// has held loot for a counter, and the run to be made or why none is.
#[verifier::opaque]
pub open spec fn weighed(
    mode: GroupMode,
    because: Seq<char>,
    sale_since: Option<Moment>,
    look: TownLook,
    cfg: Growth,
    needs: Seq<Need>,
    now: Moment,
) -> (Option<Moment>, Result<TripSeen, Seq<char>>) {
    let to_sell = look.salables@.len();
    let clock = sale_clock(sale_since, to_sell, now);
    let carried_for = match clock {
        Some(t) => Some(spec_since(now, t)),
        None => None,
    };
    (
        clock,
        match why_go(
            mode,
            because,
            look,
            needs,
            sale_reason(look.salables@, carried_for, cfg),
        ) {
            Err(why) => Err(why),
            Ok((reason, errand, within)) => Ok(
                TripSeen {
                    needs,
                    reason,
                    errand: if to_sell == 0 {
                        Errand::Buy
                    } else {
                        errand
                    },
                    within,
                    go_anyway: look.full || spec_stranded(needs, look.spendable, to_sell),
                },
            ),
        },
    )
}

/// Deciding on a run, by what stands in its way.
#[verifier::opaque]
pub open spec fn waited(
    st: State,
    asked: bool,
    look: TownLook,
    cfg: Growth,
    needs: Seq<Need>,
    now: Moment,
) -> Decided {
    let wait = spec_wait_between_runs(!(st.mode is Hunting), st.run_was_futile);
    if look.busy || look.traveling || st.bound is Some {
        held(st, asked, "busy with something else"@)
    } else if spec_lately(st.last_run, now, wait) {
        held(
            st,
            asked,
            counted(((wait - spec_since(now, st.last_run->0)) as u64 / SECOND) as nat)
                + " s to wait since the last run"@,
        )
    } else if st.next_run is Some && now < st.next_run->0 {
        held(st, asked, "waiting to try a vendor again"@)
    } else if look.room_anywhere == 0 {
        Decided {
            deeds: seq![
                Deed::Note(
                    "no free slot in the pack: a counter has nowhere to put the money, so a slot has to be freed before anything can be sold"@,
                ),
            ],
            ..held(st, asked, "no free slot for a counter's money"@)
        }
    } else {
        let (clock, r) = weighed(
            st.mode,
            st.mode_because@,
            st.sale_since,
            look,
            cfg,
            needs,
            now,
        );
        let after = State { sale_since: clock, ..st };
        match r {
            Err(why) => held(after, true, why),
            Ok(trip) => Decided {
                st: after,
                asked: true,
                why: None,
                deeds: seq![],
                next: Some(trip),
            },
        }
    }
}

/// Deciding on a run, by what the character is too heavy for.
#[verifier::opaque]
pub open spec fn lifted(
    st: State,
    asked: bool,
    look: TownLook,
    cfg: Growth,
    needs: Seq<Need>,
    now: Moment,
) -> Decided {
    if st.too_heavy {
        if look.burden_room == 0 && needs.len() > 0 {
            held(
                st,
                true,
                "too heavy to buy anything ("@ + counted(look.carrying as nat) + " of "@ + counted(
                    look.capacity as nat,
                ) + ", three times over)"@,
            )
        } else {
            waited(State { too_heavy: false, ..st }, true, look, cfg, needs, now)
        }
    } else {
        waited(st, asked, look, cfg, needs, now)
    }
}

/// Deciding on a run.
pub open spec fn decided(
    st: State,
    look: TownLook,
    cfg: Growth,
    needs: Seq<Need>,
    now: Moment,
) -> Decided {
    if st.stopped_in_town {
        if spec_lately(st.stopped_looked, now, STOPPED_LOOK_EVERY) {
            Decided { st, asked: false, why: None, deeds: seq![], next: None }
        } else if spec_stranded(needs, look.spendable, look.salables@.len()) {
            Decided {
                st: State { stopped_looked: Some(now), ..st },
                asked: true,
                why: None,
                deeds: seq![],
                next: None,
            }
        } else {
            let woken = State {
                stopped_in_town: false,
                stopped_looked: None,
                run_was_futile: false,
                last_run: None,
                ..st
            };
            let d = lifted(woken, true, look, cfg, needs, now);
            Decided {
                deeds: seq![Deed::Note("something to spend again: shopping"@)] + d.deeds,
                ..d
            }
        }
    } else {
        lifted(st, false, look, cfg, needs, now)
    }
}

/// What is remembered of the needs, whether they were asked for or not.
pub open spec fn remembered(
    before: NeedsMemory,
    after: NeedsMemory,
    counted: Seq<Need>,
    now: Moment,
    asked: bool,
) -> bool {
    if asked {
        before.remembers(now, counted, after)
    } else {
        after == before
    }
}

/// What was remembered, given and returned is what was decided.
pub open spec fn carries_out(
    before: State,
    after: State,
    given: Seq<Order>,
    orders: Seq<Order>,
    r: TownNext,
    d: Decided,
) -> bool {
    &&& after == (State { held_back: after.held_back, ..d.st })
    &&& match d.why {
        Some(why) => after.held_back@ == why,
        None => after.held_back == before.held_back,
    }
    &&& deeds(orders) == deeds(given) + d.deeds
    &&& match d.next {
        Some(t) => r is Start && seen_trip(r->Start_0) == t,
        None => r is Held,
    }
}

/// Say why no run to town is being started.
pub fn held_back(st: &mut State, why: String) -> (r: TownNext)
    ensures
        r is Held,
        final(st).held_back@ == why@,
        *final(st) == (State { held_back: final(st).held_back, ..*old(st) }),
{
    if !same(st.held_back.as_str(), why.as_str()) {
        st.held_back = why;
    }
    TownNext::Held
}

fn all_names(needs: &Vec<Need>) -> (r: String)
    ensures
        r@ == few(names_of(needs@)),
{
    let mut names: Vec<&str> = Vec::new();
    let mut i: usize = 0;
    assert(said(names@) =~= names_of(needs@.take(0)));
    while i < needs.len()
        invariant
            i <= needs.len(),
            said(names@) == names_of(needs@.take(i as int)),
        decreases needs.len() - i,
    {
        let ghost so_far = names@;
        names.push(needs[i].name.as_str());
        assert(said(names@) =~= said(so_far).push(needs@[i as int].name@));
        assert(names_of(needs@.take(i + 1)) =~= names_of(needs@.take(i as int)).push(
            needs@[i as int].name@,
        ));
        i = i + 1;
    }
    assert(needs@.take(i as int) =~= needs@);
    a_few(names.as_slice())
}

/// What a reason comes to.
pub open spec fn seen_reason(
    r: Result<(String, Errand, Option<Single>), String>,
) -> Result<(Seq<char>, Errand, Option<Single>), Seq<char>> {
    match r {
        Ok((s, e, w)) => Ok((s@, e, w)),
        Err(s) => Err(s@),
    }
}

/// Why a run is made, what for, and how far from a way out its first counter
/// may be; or why none is made.
///
/// On a team that restocks together, the party's mode decides. Alone, something
/// urgent, a pack with no room left, as much loot as it means to carry, or loot
/// enough tagged for a counter. A pack that cannot hunt on is worth a walk
/// anywhere; loot that merely adds up is worth the town the character is in,
/// and no further.
pub fn reason_to_go(
    st: &State,
    look: &TownLook,
    needs: &Vec<Need>,
    sale: Option<String>,
) -> (r: Result<(String, Errand, Option<Single>), String>)
    ensures
        seen_reason(r) == why_go(
            st.mode,
            st.mode_because@,
            *look,
            needs@,
            match sale {
                Some(s) => Some(s@),
                None => None,
            },
        ),
{
    proof {
        reveal(why_go);
    }
    let own = if look.full || look.laden || sale.is_some() {
        Errand::Sell
    } else {
        Errand::Buy
    };
    if look.together {
        return match st.mode.stage() {
            None => Err(String::from_str("the party is hunting")),
            Some(stage) => {
                if stage != Stage::Shopping && look.by_quartermaster && !look.is_quartermaster {
                    Err(String::from_str("the quartermaster is doing the shopping"))
                } else if st.mode_because.as_str().is_empty() {
                    Ok((String::from_str("the party is restocking"), own, None))
                } else {
                    Ok((st.mode_because.clone(), own, None))
                }
            },
        };
    }
    if look.full {
        return Ok((String::from_str("the pack is full"), Errand::Sell, None));
    }
    if look.laden {
        return Ok((String::from_str("carrying as much as it means to"), Errand::Sell, None));
    }
    if is_any_urgent(needs.as_slice()) {
        let short = short_of(needs.as_slice(), true);
        return Ok((cat2("short of ", short.as_str()), Errand::Buy, None));
    }
    match sale {
        Some(why) => Ok((why, Errand::Sell, Some(Single { bits: IN_TOWN }))),
        None => {
            let short = all_names(needs);
            let things = if look.salables.len() == 0 {
                String::new()
            } else {
                let n = count(look.salables.len() as u128);
                cat3("; ", n.as_str(), " thing(s) for a counter, not yet worth the trip")
            };
            assert(look.salables@.len() == 0 ==> things@ =~= Seq::<char>::empty());
            Err(cat4("nothing urgent (short of ", short.as_str(), things.as_str(), ")"))
        },
    }
}

fn weigh(st: &mut State, look: &TownLook, cfg: &Growth, needs: Vec<Need>, now: Moment) -> (r: TownNext)
    requires
        look.salables@.len() <= u32::MAX,
    ensures
        ({
            let (clock, w) = weighed(
                old(st).mode,
                old(st).mode_because@,
                old(st).sale_since,
                *look,
                *cfg,
                needs@,
                now,
            );
            &&& *final(st) == (State {
                sale_since: clock,
                held_back: final(st).held_back,
                ..*old(st)
            })
            &&& match w {
                Err(why) => r is Held && final(st).held_back@ == why,
                Ok(t) => {
                    &&& final(st).held_back == old(st).held_back
                    &&& r is Start
                    &&& seen_trip(r->Start_0) == t
                },
            }
        }),
{
    proof {
        reveal(weighed);
    }
    let to_sell: usize = look.salables.len();
    if to_sell == 0 {
        st.sale_since = None;
    } else if st.sale_since.is_none() {
        st.sale_since = Some(now);
    }
    let carried_for = match st.sale_since {
        Some(t) => Some(since(now, t)),
        None => None,
    };
    let sale = worth_a_sale_run(look.salables, carried_for, cfg);
    match reason_to_go(st, look, &needs, sale) {
        Err(why) => held_back(st, why),
        Ok((reason, errand, within)) => {
            let go_anyway = look.full || stranded(needs.as_slice(), look.spendable, to_sell);
            let errand = if to_sell == 0 {
                Errand::Buy
            } else {
                errand
            };
            TownNext::Start(Trip { needs, reason, errand, within, go_anyway })
        },
    }
}

fn wait_or_weigh(
    st: &mut State,
    memory: &mut NeedsMemory,
    look: &TownLook,
    cfg: &Growth,
    counted: &Vec<Need>,
    now: Moment,
    out: &mut Vec<Order>,
) -> (r: TownNext)
    requires
        look.salables@.len() <= u32::MAX,
    ensures
        ({
            let d = waited(*old(st), false, *look, *cfg, old(memory).needs_by(now, counted@), now);
            &&& carries_out(*old(st), *final(st), old(out)@, final(out)@, r, d)
            &&& remembered(*old(memory), *final(memory), counted@, now, d.asked)
        }),
{
    proof {
        reveal(waited);
    }
    let ghost d = waited(*st, false, *look, *cfg, memory.needs_by(now, counted@), now);
    if look.busy || look.traveling || st.bound.is_some() {
        assert(deeds(out@) =~= deeds(old(out)@) + d.deeds);
        return held_back(st, String::from_str("busy with something else"));
    }
    let wait: u64 = wait_between_runs(!st.mode.hunting(), st.run_was_futile);
    if let Some(t) = st.last_run {
        let gone: u64 = since(now, t);
        if gone < wait {
            let left = count(((wait - gone) / SECOND) as u128);
            assert(deeds(out@) =~= deeds(old(out)@) + d.deeds);
            return held_back(st, cat2(left.as_str(), " s to wait since the last run"));
        }
    }
    if let Some(t) = st.next_run {
        if now < t {
            assert(deeds(out@) =~= deeds(old(out)@) + d.deeds);
            return held_back(st, String::from_str("waiting to try a vendor again"));
        }
    }
    if look.room_anywhere == 0 {
        note(
            out,
            String::from_str(
                "no free slot in the pack: a counter has nowhere to put the money, so a slot has to be freed before anything can be sold",
            ),
        );
        assert(deeds(out@) =~= deeds(old(out)@) + d.deeds);
        return held_back(st, String::from_str("no free slot for a counter's money"));
    }
    assert(deeds(out@) =~= deeds(old(out)@) + d.deeds);
    let needs = memory.needs_now(now, counted);
    weigh(st, look, cfg, needs, now)
}

/// Whether the needs were asked for before makes no difference to a run.
proof fn lemma_asked_before(st: State, look: TownLook, cfg: Growth, needs: Seq<Need>, now: Moment)
    ensures
        waited(st, true, look, cfg, needs, now) == (Decided {
            asked: true,
            ..waited(st, false, look, cfg, needs, now)
        }),
        lifted(st, true, look, cfg, needs, now) == (Decided {
            asked: true,
            ..lifted(st, false, look, cfg, needs, now)
        }),
{
    reveal(waited);
    reveal(lifted);
}

#[verifier::rlimit(60)]
fn lift(
    st: &mut State,
    memory: &mut NeedsMemory,
    look: &TownLook,
    cfg: &Growth,
    counted: &Vec<Need>,
    now: Moment,
    out: &mut Vec<Order>,
) -> (r: TownNext)
    requires
        look.salables@.len() <= u32::MAX,
    ensures
        ({
            let d = lifted(*old(st), false, *look, *cfg, old(memory).needs_by(now, counted@), now);
            &&& carries_out(*old(st), *final(st), old(out)@, final(out)@, r, d)
            &&& remembered(*old(memory), *final(memory), counted@, now, d.asked)
        }),
{
    proof {
        reveal(lifted);
    }
    if !st.too_heavy {
        return wait_or_weigh(st, memory, look, cfg, counted, now, out);
    }
    let ghost d = lifted(*st, false, *look, *cfg, memory.needs_by(now, counted@), now);
    let needs = memory.needs_now(now, counted);
    if look.burden_room == 0 && needs.len() > 0 {
        let carrying = count(look.carrying as u128);
        let capacity = count(look.capacity as u128);
        let why = cat5(
            "too heavy to buy anything (",
            carrying.as_str(),
            " of ",
            capacity.as_str(),
            ", three times over)",
        );
        assert(deeds(out@) =~= deeds(old(out)@) + d.deeds);
        return held_back(st, why);
    }
    st.too_heavy = false;
    let ghost mid = *st;
    let ghost w = waited(*st, false, *look, *cfg, needs@, now);
    proof {
        lemma_asked_before(*st, *look, *cfg, needs@, now);
        assert(memory.needs_by(now, counted@) == needs@);
        assert(d == Decided { asked: true, ..w });
    }
    let r = wait_or_weigh(st, memory, look, cfg, counted, now, out);
    assert(carries_out(mid, *st, old(out)@, out@, r, w));
    assert(carries_out(*old(st), *st, old(out)@, out@, r, d));
    r
}

/// Decide whether to start a run, where none is in progress; one that is takes
/// its next turn. `counted` is what the character is short of as just counted,
/// read only when that is due.
///
/// A character stopped in town stays put until something has changed from
/// outside. One too laden to be handed anything does not go to a counter. No
/// run is made while anything else is going on, nor too soon after the last
/// one, nor with no slot for a counter's money.
#[verifier::rlimit(60)]
pub fn grow_town_run(
    st: &mut State,
    memory: &mut NeedsMemory,
    look: &TownLook,
    cfg: &Growth,
    counted: &Vec<Need>,
    now: Moment,
    out: &mut Vec<Order>,
) -> (r: TownNext)
    requires
        look.salables@.len() <= u32::MAX,
    ensures
        old(st).run is Some ==> {
            &&& r is Step
            &&& *final(st) == *old(st)
            &&& *final(memory) == *old(memory)
            &&& final(out)@ == old(out)@
        },
        old(st).run is None ==> {
            let d = decided(*old(st), *look, *cfg, old(memory).needs_by(now, counted@), now);
            &&& carries_out(*old(st), *final(st), old(out)@, final(out)@, r, d)
            &&& remembered(*old(memory), *final(memory), counted@, now, d.asked)
        },
{
    if st.run.is_some() {
        return TownNext::Step;
    }
    if !st.stopped_in_town {
        return lift(st, memory, look, cfg, counted, now, out);
    }
    let ghost d = decided(*st, *look, *cfg, memory.needs_by(now, counted@), now);
    if crate::clock::lately(st.stopped_looked, now, STOPPED_LOOK_EVERY) {
        assert(deeds(out@) =~= deeds(old(out)@) + d.deeds);
        return TownNext::Held;
    }
    st.stopped_looked = Some(now);
    let needs = memory.needs_now(now, counted);
    if stranded(needs.as_slice(), look.spendable, look.salables.len()) {
        assert(deeds(out@) =~= deeds(old(out)@) + d.deeds);
        return TownNext::Held;
    }
    st.stopped_in_town = false;
    st.stopped_looked = None;
    st.run_was_futile = false;
    st.last_run = None;
    note(out, String::from_str("something to spend again: shopping"));
    let ghost mid = *st;
    let ghost given = out@;
    let ghost w = lifted(*st, false, *look, *cfg, needs@, now);
    proof {
        lemma_asked_before(*st, *look, *cfg, needs@, now);
        assert(memory.needs_by(now, counted@) == needs@);
        assert(d.st == w.st && d.why == w.why && d.next == w.next && d.asked);
        assert(d.deeds == seq![Deed::Note("something to spend again: shopping"@)] + w.deeds);
    }
    let r = lift(st, memory, look, cfg, counted, now, out);
    assert(carries_out(mid, *st, given, out@, r, w));
    assert(deeds(out@) =~= deeds(old(out)@) + d.deeds);
    assert(carries_out(*old(st), *st, old(out)@, out@, r, d));
    r
}

} // verus!
