//! What holds of how long a run waits, and for what.

use crate::clock::{spec_lately, spec_seconds, spec_since, spec_span_of, Moment, Span};
use crate::single::{units, Single};
use crate::single_laws::{apart, law_so_many_times_a_number};
use crate::state::{
    spec_counter_asked, spec_driver, spec_hand_has_let_go, spec_on_opening, spec_on_the_way,
    spec_road_under_way, spec_wait_between_runs, spec_window_is_unwanted, Driver, NeedsMemory,
    OnOpening, OnTheWay, Phase, Run, State, Turn, Unwanted,
};
use crate::wares::Need;
use vstd::arithmetic::power2::pow2;
use vstd::prelude::*;

verus! {

/// A counter that was asked to open: one that does is open; one that said it was
/// busy is asked over three times, three seconds after it said so and not while
/// something of ours is under way; one that says nothing is waited for for twelve
/// seconds, asked once more, and given up after two tries.
pub proof fn law_how_a_counter_is_opened(
    open: bool,
    busy: Option<Span>,
    ours_in_flight: bool,
    asked_over: u32,
    elapsed: Span,
    tries: u32,
)
    ensures
        ({
            let does = spec_on_opening(open, busy, ours_in_flight, asked_over, elapsed, tries);
            let put_off = busy is Some && asked_over < 3;
            &&& does == OnOpening::Opened <==> open
            &&& does == OnOpening::AskOver <==> !open && put_off && !ours_in_flight && busy->0
                >= 3_000_000_000
            &&& does == OnOpening::AskAgain <==> !open && !put_off && elapsed > 12_000_000_000
                && tries <= 1
            &&& does == OnOpening::GiveUp <==> !open && !put_off && elapsed > 12_000_000_000
                && tries >= 2
        }),
{
}

/// Waiting longer never turns a counter back to waiting.
pub proof fn law_a_wait_ends_for_good(
    busy: Option<Span>,
    asked_over: u32,
    elapsed: Span,
    later: Span,
    tries: u32,
)
    requires
        elapsed <= later,
        busy is None,
        spec_on_opening(false, busy, false, asked_over, elapsed, tries) != OnOpening::Wait,
    ensures
        spec_on_opening(false, busy, false, asked_over, later, tries) == spec_on_opening(
            false,
            busy,
            false,
            asked_over,
            elapsed,
            tries,
        ),
{
}

/// The counter that is asked is the one being opened while one is, none while a
/// run is on its way, and otherwise the one whose window stands open.
pub proof fn law_which_counter_is_asked(phase: Option<Phase>, window: Option<u32>)
    ensures
        phase is None ==> spec_counter_asked(phase, window) == window,
        phase is Some && phase->0 is Going ==> spec_counter_asked(phase, window) is None,
        phase is Some && phase->0 is Opening ==> spec_counter_asked(phase, window) == Some(
            phase->0->guid,
        ),
        phase is Some && (phase->0 is Appraising || phase->0 is Selling) ==> spec_counter_asked(
            phase,
            window,
        ) == window,
{
}

/// A run drives itself only where it was not begun by hand and the character plays
/// itself.
pub proof fn law_who_drives_a_run(by_hand: bool, autoplay_drives: bool)
    ensures
        spec_driver(by_hand, autoplay_drives) == Driver::Autoplay <==> !by_hand && autoplay_drives,
{
}

/// A hand that stepped in has let go a second later, and not before.
pub proof fn law_a_hand_lets_go_in_a_second(stepped: Option<Moment>, now: Moment)
    ensures
        spec_hand_has_let_go(stepped, now) <==> (stepped is None || now >= stepped->0
            + 1_000_000_000),
{
}

/// A window nobody wants is that of the counter that was last asked, within twelve
/// seconds of the asking.
pub proof fn law_which_window_is_unwanted(unwanted: Option<Unwanted>, vendor: u32, now: Moment)
    ensures
        unwanted is None ==> !spec_window_is_unwanted(unwanted, vendor, now),
        unwanted is Some ==> (spec_window_is_unwanted(unwanted, vendor, now) <==> vendor
            == unwanted->0.guid && now <= unwanted->0.asked + 12_000_000_000),
{
}

/// Runs are eight minutes apart; while the party restocks they follow at once, or
/// in five minutes after one that came to nothing.
pub proof fn law_how_far_apart_runs_are(party_restocking: bool, futile: bool)
    ensures
        !party_restocking ==> spec_wait_between_runs(party_restocking, futile) == 480_000_000_000,
        party_restocking && futile ==> spec_wait_between_runs(party_restocking, futile)
            == 300_000_000_000,
        party_restocking && !futile ==> spec_wait_between_runs(party_restocking, futile) == 0,
{
}

/// On the way to somewhere: there it is there; on a road that ended it has come
/// short; a road broken off is walked on unless the character is busy or has lately
/// been sent on.
pub proof fn law_how_a_road_goes_on(there: bool, broken_off: bool, busy: bool, lately: bool)
    ensures
        ({
            let does = spec_on_the_way(there, broken_off, busy, lately);
            &&& does == OnTheWay::There <==> there
            &&& does == OnTheWay::Short <==> !there && !broken_off
            &&& does == OnTheWay::WalkOn <==> !there && broken_off && !busy && !lately
            &&& does == OnTheWay::Wait <==> !there && broken_off && (busy || lately)
        }),
{
}

/// A road is under way where a trip is, or one taken up again, that is not there
/// yet.
pub proof fn law_when_a_road_is_under_way(trip: Option<bool>, resumed: Option<bool>)
    ensures
        spec_road_under_way(trip, resumed) <==> (trip is Some && !trip->0) || (resumed is Some
            && !resumed->0),
{
}

/// A run goes on after a stop just where the stop says so.
pub proof fn law_a_stop_says_whether_a_run_goes_on(goes_on: bool)
    ensures
        Turn::spec_after_stop(goes_on) == Turn::Acted <==> goes_on,
        Turn::spec_after_stop(goes_on) == Turn::Over <==> !goes_on,
{
}

/// What is needed is counted every five seconds: until then what was counted
/// stands, and then what is counted anew is what is remembered, with its time.
pub proof fn law_needs_are_counted_every_five_seconds(
    before: NeedsMemory,
    now: Moment,
    counted: Seq<Need>,
    after: NeedsMemory,
)
    requires
        before.remembers(now, counted, after),
    ensures
        before.seen is Some && now < before.seen->0.when + 5_000_000_000 ==> after == before
            && before.needs_by(now, counted) == before.seen->0.needs@,
        before.seen is None || now >= before.seen->0.when + 5_000_000_000 ==> before.needs_by(
            now,
            counted,
        ) == counted && after.seen is Some && after.seen->0.when == now && after.seen->0.needs@
            == counted,
{
}

/// A counter that says it is busy is remembered to have said so while it is being
/// opened and has been asked over less than three times; nothing else of a run is
/// touched, and no other run.
pub proof fn law_a_busy_counter_is_remembered(run: Option<Run>, now: Moment)
    ensures
        run is None ==> State::told_busy(run, now) is None,
        run is Some ==> ({
            let before = run->0;
            let after = State::told_busy(run, now)->0;
            &&& State::told_busy(run, now) is Some
            &&& after == (Run { phase: after.phase, ..before })
            &&& before.phase is Opening && before.phase->asked_over < 3 ==> after.phase
                == (Phase::Opening {
                guid: before.phase->guid,
                tries: before.phase->tries,
                busy: Some(now),
                asked_over: before.phase->asked_over,
            })
            &&& !(before.phase is Opening && before.phase->asked_over < 3) ==> after.phase
                == before.phase
        }),
{
}

/// It was lately where it was, and less than so long ago.
pub proof fn law_what_was_lately(then: Option<Moment>, now: Moment, span: Span)
    requires
        span > 0,
    ensures
        spec_lately(then, now, span) <==> then is Some && now < then->0 + span,
        then is Some && now >= then->0 ==> spec_since(now, then->0) == now - then->0,
        then is Some && now < then->0 ==> spec_since(now, then->0) == 0,
{
}

/// A span in seconds is its whole seconds and what is over in thousand millionths,
/// and a number of seconds as a span is so many times a thousand million.
pub proof fn law_a_span_in_seconds(span: Span, x: Single)
    ensures
        spec_seconds(span) == Single::whole(span as int / 1_000_000_000).sum(
            Single::whole(span as int % 1_000_000_000).quotient(Single { bits: 0x4e6e_6b28 }),
        ),
        spec_span_of(x) == x.spec_scaled(1_000_000_000),
        spec_span_of(x) is Some ==> apart(
            2 * (spec_span_of(x)->0 * pow2(149)),
            2 * (units(x.magnitude()) * 1_000_000_000),
        ) <= pow2(149),
{
    if spec_span_of(x) is Some {
        law_so_many_times_a_number(x, 1_000_000_000);
    }
}

} // verus!
