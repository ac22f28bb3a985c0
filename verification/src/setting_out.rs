//! Setting out on a run to town: choosing the first counter and planning the
//! walk to it.

use crate::clock::Moment;
use crate::counters::{Errand, Look, Want};
use crate::orders::{deeds, note, say, skip_vendor, Deed, Doing, Order};
use crate::place::{about, in_fifties, Spot};
use crate::single::Single;
use crate::state::{Phase, Run, State};
use crate::text::{cat3, cat4, cat5, count, counted, show, shown};
use crate::vendors::{
    all_priced, are_wants, pick_vendor, picked, wants_of, Field, Stop, Way,
};
use crate::wares::Need;
use crate::ways::{nearest_of, nearest_way};
use vstd::prelude::*;
use vstd::string::*;

verus! {

/// After a journey that could not be planned, the next place is not tried for
/// this long.
pub const RETRY_AFTER: u64 = 30_000_000_000;

/// The first counter of a run, to which a walk is to be planned.
#[derive(Clone, Debug)]
pub struct FirstStop {
    pub vendor: String,
    pub at: Spot,
    pub errand: Errand,
    pub reason: String,
    /// The forecast, in words.
    pub tell: String,
    /// How far off it is.
    pub away: Single,
}

/// What setting out comes to.
#[derive(Clone, Debug)]
pub enum StartNext {
    /// A walk to the first counter is to be planned.
    Walk(FirstStop),
    /// No run is made, and why.
    Refused(String),
}

/// Why no counter was found.
pub open spec fn no_counter(errand: Errand, within: Option<Single>, to_sell: nat) -> Seq<char> {
    match (errand, within) {
        (Errand::Buy, _) => "no vendor to run to"@,
        (Errand::Sell, Some(reach)) => "nobody within "@ + shown(reach)
            + " m of a way out buys any of the "@ + counted(to_sell) + " thing(s) for sale"@,
        (Errand::Sell, None) => "no counter buys any of the "@ + counted(to_sell)
            + " thing(s) for sale"@,
    }
}

/// Which way is nearest to a counter, in words: how far, and by what.
pub open spec fn by_way(ways: Seq<Way>, at: Spot) -> (Single, Seq<char>) {
    match nearest_of(ways, at, ways.len()) {
        Some(i) => (at.spec_away(ways[i].at), ways[i].name@),
        None => (Single { bits: 0 }, "here"@),
    }
}

/// Why this counter and not another.
pub open spec fn this_one(vendor: Seq<char>, look: Look, ways: Seq<Way>, at: Spot) -> Seq<char> {
    vendor + " it is: "@ + look.why() + ", "@ + shown(by_way(ways, at).0) + " m by "@ + by_way(
        ways,
        at,
    ).1
}

pub open spec fn not_worth(vendor: Seq<char>, look: Look) -> Seq<char> {
    "not worth a trip to "@ + vendor + ": "@ + look.told_as()
}

/// What setting out comes to, before the walk is planned: what is remembered,
/// what is asked for, and what is left to do.
pub open spec fn starts(
    before: State,
    me: Option<Spot>,
    reason: String,
    stop: Stop,
    go_anyway: bool,
    f: Field,
    wants: Seq<Want>,
    now: Moment,
    after: State,
    asked: Seq<Deed>,
    r: StartNext,
) -> bool {
    if me is None {
        &&& after == before
        &&& asked.len() == 0
        &&& r is Refused
        &&& r->Refused_0@ == "not placed in the world yet"@
    } else {
        match picked(f, stop, wants) {
            None => {
                let why = no_counter(stop.errand, stop.within, f.salables@.len());
                &&& after == (State { last_run: Some(now), ..before })
                &&& asked == seq![Deed::Note(why)]
                &&& r is Refused
                &&& r->Refused_0@ == why
            },
            Some((vendor, at, look)) => {
                let this = Deed::Note(this_one(vendor@, look, f.ways@, at));
                if !go_anyway && !look.worth_going() {
                    &&& after == (State {
                        last_run: Some(now),
                        run_was_futile: true,
                        ..before
                    })
                    &&& asked == seq![this, Deed::Note(not_worth(vendor@, look))]
                    &&& r is Refused
                    &&& r->Refused_0@ == not_worth(vendor@, look)
                } else {
                    &&& after == before
                    &&& asked == seq![this]
                    &&& r is Walk
                    &&& r->Walk_0.vendor == vendor
                    &&& r->Walk_0.at == at
                    &&& r->Walk_0.errand == stop.errand
                    &&& r->Walk_0.reason == reason
                    &&& r->Walk_0.tell@ == look.told_as()
                    &&& r->Walk_0.away == at.spec_away(me->0)
                }
            },
        }
    }
}

/// Set off for a counter: choose one, and say why it or none. `stop` is what
/// the first counter is chosen for and how far from a way out it may stand;
/// `go_anyway` takes the trip whether or not the forecast says it is worth
/// making. The walk is planned next, and its outcome given to
/// [`town_run_planned`].
pub fn start_town_run(
    st: &mut State,
    me: Option<Spot>,
    needs: &[Need],
    reason: String,
    stop: &Stop,
    go_anyway: bool,
    f: &Field,
    now: Moment,
    out: &mut Vec<Order>,
) -> (r: StartNext)
    requires
        all_priced(f.stands@, f.salables@),
    ensures
        exists|wants: Seq<Want>, asked: Seq<Deed>|
            {
                &&& are_wants(wants, needs@, needs@.len())
                &&& #[trigger] starts(
                    *old(st),
                    me,
                    reason,
                    *stop,
                    go_anyway,
                    *f,
                    wants,
                    now,
                    *final(st),
                    asked,
                    r,
                )
                &&& deeds(final(out)@) == deeds(old(out)@) + asked
            },
{
    let ghost given = deeds(out@);
    let wants = wants_of(needs);
    let here = match me {
        Some(p) => p,
        None => {
            let r = StartNext::Refused(String::from_str("not placed in the world yet"));
            proof {
                assert(deeds(out@) =~= given + Seq::<Deed>::empty());
                assert(starts(
                    *old(st),
                    me,
                    reason,
                    *stop,
                    go_anyway,
                    *f,
                    wants@,
                    now,
                    *st,
                    Seq::<Deed>::empty(),
                    r,
                ));
            }
            return r;
        },
    };
    match pick_vendor(f, stop, wants.as_slice()) {
        None => {
            let things = count(f.salables.len() as u128);
            let why = match stop.errand {
                Errand::Buy => String::from_str("no vendor to run to"),
                Errand::Sell => match stop.within {
                    Some(reach) => {
                        let far = show(reach);
                        cat5(
                            "nobody within ",
                            far.as_str(),
                            " m of a way out buys any of the ",
                            things.as_str(),
                            " thing(s) for sale",
                        )
                    },
                    None => cat3(
                        "no counter buys any of the ",
                        things.as_str(),
                        " thing(s) for sale",
                    ),
                },
            };
            note(out, why.clone());
            st.last_run = Some(now);
            let ghost asked = seq![Deed::Note(why@)];
            let r = StartNext::Refused(why);
            proof {
                assert(deeds(out@) =~= given + asked);
                assert(starts(
                    *old(st),
                    me,
                    reason,
                    *stop,
                    go_anyway,
                    *f,
                    wants@,
                    now,
                    *st,
                    asked,
                    r,
                ));
            }
            r
        },
        Some(pick) => {
            let ghost look = pick.look@;
            let why = pick.look.why_it_was_picked();
            let (_, far, way) = nearest_way(f.ways, pick.at);
            let metres = show(far);
            let first = cat5(pick.name.as_str(), " it is: ", why.as_str(), ", ", metres.as_str());
            let this = cat3(first.as_str(), " m by ", way.as_str());
            let ghost said = Deed::Note(this_one(pick.name@, look, f.ways@, pick.at));
            note(out, this);
            let tell = pick.look.tell();
            if !go_anyway && !pick.look.worth_going() {
                let no = cat4("not worth a trip to ", pick.name.as_str(), ": ", tell.as_str());
                note(out, no.clone());
                st.last_run = Some(now);
                st.run_was_futile = true;
                let ghost asked = seq![said, Deed::Note(no@)];
                let r = StartNext::Refused(no);
                proof {
                    assert(deeds(out@) =~= given + asked);
                    assert(starts(
                        *old(st),
                        me,
                        reason,
                        *stop,
                        go_anyway,
                        *f,
                        wants@,
                        now,
                        *st,
                        asked,
                        r,
                    ));
                }
                return r;
            }
            let away = pick.at.away(here);
            let ghost why_go = reason;
            let r = StartNext::Walk(
                FirstStop {
                    vendor: pick.name,
                    at: pick.at,
                    errand: stop.errand,
                    reason,
                    tell,
                    away,
                },
            );
            proof {
                assert(deeds(out@) =~= given + seq![said]);
                assert(starts(
                    *old(st),
                    me,
                    why_go,
                    *stop,
                    go_anyway,
                    *f,
                    wants@,
                    now,
                    *st,
                    seq![said],
                    r,
                ));
            }
            r
        },
    }
}

/// A run that calls at its first counter.
pub open spec fn is_first_run(stop: FirstStop, now: Moment, run: Run) -> bool {
    &&& run.visited@ == seq![stop.at]
    &&& run == (Run {
        vendor: stop.vendor,
        at: stop.at,
        phase: Phase::Going,
        since: now,
        last_sell: None,
        town: stop.at,
        stops: 1,
        sold: 0,
        reason: stop.reason,
        errand: stop.errand,
        visited: run.visited,
        walked_on: None,
    })
}

/// What is said on setting out.
pub open spec fn going_out(stop: FirstStop) -> Seq<char> {
    stop.reason@ + ": going to "@ + stop.vendor@ + " ("@ + (counted(
        in_fifties(stop.away) as nat,
    ) + " m"@) + ") -- "@ + stop.tell@
}

/// The walk to the first counter was planned, and the run is open; or it could
/// not be, and why no run is made. Not the next counter straight away then: a
/// character somewhere no journey can start from would try every vendor in the
/// world, one a frame.
pub fn town_run_planned(
    st: &mut State,
    stop: FirstStop,
    needs: Vec<Need>,
    way: bool,
    now: Moment,
    out: &mut Vec<Order>,
) -> (r: Result<(), String>)
    requires
        now <= u64::MAX - RETRY_AFTER,
    ensures
        r is Ok <==> way,
        way ==> {
            &&& final(st).run is Some
            &&& is_first_run(stop, now, final(st).run->0)
            &&& *final(st) == (State {
                needs,
                by_hand: false,
                window_unwanted: None,
                sale_since: None,
                run: final(st).run,
                ..*old(st)
            })
            &&& deeds(final(out)@) == deeds(old(out)@).push(
                Deed::Say(Doing::Shopping, going_out(stop)),
            )
        },
        !way ==> {
            let why = "no way to "@ + stop.vendor@ + " from here"@;
            &&& *final(st) == (State {
                next_run: Some((now + RETRY_AFTER) as u64),
                ..*old(st)
            })
            &&& deeds(final(out)@) == deeds(old(out)@) + seq![
                Deed::SkipVendor {
                    spot: stop.at.spec_spot(),
                    why: "no way there from here"@,
                },
                Deed::Note(why),
            ]
            &&& r->Err_0@ == why
            &&& final(st).next_run == Some((now + 30_000_000_000) as u64)
        },
{
    if !way {
        skip_vendor(out, stop.at, String::from_str("no way there from here"));
        st.next_run = Some(now + RETRY_AFTER);
        let why = cat3("no way to ", stop.vendor.as_str(), " from here");
        note(out, why.clone());
        assert(deeds(out@) =~= deeds(old(out)@) + seq![
            Deed::SkipVendor { spot: stop.at.spec_spot(), why: "no way there from here"@ },
            Deed::Note(why@),
        ]);
        return Err(why);
    }
    let far = about(stop.away);
    let first = cat5(
        stop.reason.as_str(),
        ": going to ",
        stop.vendor.as_str(),
        " (",
        far.as_str(),
    );
    let text = cat3(first.as_str(), ") -- ", stop.tell.as_str());
    say(out, Doing::Shopping, text);
    st.needs = needs;
    st.by_hand = false;
    st.window_unwanted = None;
    st.sale_since = None;
    let mut visited: Vec<Spot> = Vec::new();
    visited.push(stop.at);
    assert(visited@ =~= seq![stop.at]);
    st.run = Some(
        Run {
            vendor: stop.vendor,
            at: stop.at,
            phase: Phase::Going,
            since: now,
            last_sell: None,
            town: stop.at,
            stops: 1,
            sold: 0,
            reason: stop.reason,
            errand: stop.errand,
            visited,
            walked_on: None,
        },
    );
    Ok(())
}

} // verus!
