//! What holds of a character's growing as a whole, and of pouring stacks together.

use crate::clock::Moment;
use crate::config::{Growth, Team};
use crate::counters::{Shop, Ware};
use crate::grow::{
    begun_orders, grows, is_begun, listed_from, panel_has_its_say, sold_from, worth_of, GrowLook,
    GrowNext,
};
use crate::logistics::Supplies;
use crate::orders::{Deed, PourEnd};
use crate::pour::{held_by_one, pour_settled, refusals_read, stack_of, Came, PourAnswer, PourSent};
use crate::state::{State, Unwanted};
use vstd::prelude::*;

verus! {

/// What a character begins a turn with: it remembers where it last stood outdoors
/// and whether it is in a dungeon; a run that may no longer be made is dropped
/// unless it is in a hand, with what it needed; and where it may not look for
/// grounds it is bound for none. Nothing else of it is touched.
pub proof fn law_how_a_turn_begins(before: State, after: State, look: GrowLook, cfg: Growth)
    requires
        is_begun(before, after, look, cfg),
    ensures
        look.outdoors is Some ==> after.last_outdoors == look.outdoors,
        look.outdoors is None ==> after.last_outdoors == before.last_outdoors,
        after.in_dungeon == look.underground,
        cfg.town_runs || before.by_hand ==> after.run == before.run && after.needs == before.needs
            && after.window_unwanted == before.window_unwanted,
        !cfg.town_runs && !before.by_hand ==> after.run is None,
        !cfg.town_runs && !before.by_hand && before.run is Some ==> after.needs@.len() == 0,
        !cfg.town_runs && !before.by_hand && before.run is Some && before.run->0.phase is Opening
            && !look.window_open ==> after.window_unwanted == Some(
            Unwanted { guid: before.run->0.phase->guid, asked: before.run->0.since },
        ),
        cfg.hunt_grounds || look.roams_an_area ==> after.bound == before.bound
            && after.bound_since == before.bound_since,
        !cfg.hunt_grounds && !look.roams_an_area ==> after.bound is None && after.bound_since
            is None,
        begun_orders(before, look, cfg).contains(Deed::CloseVendor) <==> look.window_open
            && !cfg.town_runs && !before.by_hand && before.run is Some,
        after == (State {
            last_outdoors: after.last_outdoors,
            in_dungeon: after.in_dungeon,
            run: after.run,
            needs: after.needs,
            bound: after.bound,
            bound_since: after.bound_since,
            window_unwanted: after.window_unwanted,
            ..before
        }),
{
    if crate::grow::drops_run(before, cfg) && look.window_open {
        assert(begun_orders(before, look, cfg)[0] == Deed::CloseVendor);
    }
}

/// A run in a hand claims the turn for a second after each step. After that it is
/// taken on where the character makes runs of its own, and held where it does not.
/// Without one the turn goes on.
pub proof fn law_a_hand_has_its_say_first(
    before: State,
    after: State,
    cfg: Growth,
    now: Moment,
    given: Seq<Deed>,
    orders: Seq<Deed>,
    next: GrowNext,
)
    requires
        panel_has_its_say(before, after, cfg, now, given, orders, next),
    ensures
        ({
            let in_hand = before.by_hand && before.run is Some;
            let held = before.hand_stepped is Some && now < before.hand_stepped->0
                + 1_000_000_000;
            &&& !in_hand ==> after == before && next == (GrowNext::GoOn {
                town: cfg.town_runs,
                mode: before.mode,
            })
            &&& in_hand && (held || !cfg.town_runs) ==> after == before && next
                == GrowNext::Claimed
            &&& in_hand && !held && cfg.town_runs ==> after == (State { by_hand: false, ..before })
                && next == (GrowNext::GoOn { town: true, mode: before.mode })
        }),
{
}

proof fn lemma_listed(wares: Seq<Ware>, wcid: u32, i: int)
    requires
        0 <= i <= wares.len(),
        forall|k: int| 0 <= k < i ==> (#[trigger] wares[k]).wcid != wcid,
    ensures
        match listed_from(wares, wcid, i) {
            Some(v) => listed_at(wares, wcid, v),
            None => not_listed(wares, wcid),
        },
    decreases wares.len() - i,
{
    if i < wares.len() && wares[i].wcid != wcid {
        lemma_listed(wares, wcid, i + 1);
    }
}

/// The first ware of a class on a shelf is priced so.
pub open spec fn listed_at(wares: Seq<Ware>, wcid: u32, value: u32) -> bool {
    exists|k: int|
        0 <= k < wares.len() && (#[trigger] wares[k]).wcid == wcid && wares[k].value == value
            && forall|j: int| 0 <= j < k ==> (#[trigger] wares[j]).wcid != wcid
}

/// A shelf has no ware of a class.
pub open spec fn not_listed(wares: Seq<Ware>, wcid: u32) -> bool {
    forall|k: int| 0 <= k < wares.len() ==> (#[trigger] wares[k]).wcid != wcid
}

proof fn lemma_sold(shops: Seq<Shop>, wcid: u32, i: int)
    requires
        0 <= i <= shops.len(),
        forall|k: int| 0 <= k < i ==> not_listed((#[trigger] shops[k]).sells@, wcid),
    ensures
        match sold_from(shops, wcid, i) {
            Some(v) => exists|k: int|
                0 <= k < shops.len() && listed_at((#[trigger] shops[k]).sells@, wcid, v) && forall|
                    j: int,
                |
                    0 <= j < k ==> not_listed((#[trigger] shops[j]).sells@, wcid),
            None => forall|k: int|
                0 <= k < shops.len() ==> not_listed((#[trigger] shops[k]).sells@, wcid),
        },
    decreases shops.len() - i,
{
    if i < shops.len() {
        lemma_listed(shops[i].sells@, wcid, 0);
        if listed_from(shops[i].sells@, wcid, 0) is None {
            lemma_sold(shops, wcid, i + 1);
        }
    }
}

/// What one of a class is worth is what the shelf at hand asks for it, or where that
/// has none what the first shop that sells it asks; and nothing where nobody does.
pub proof fn law_what_a_thing_bought_is_worth(
    shelf: Option<&Vec<Ware>>,
    shops: Seq<Shop>,
    wcid: u32,
)
    ensures
        ({
            let worth = worth_of(shelf, shops, wcid);
            let here = shelf is Some && !not_listed(shelf->0@, wcid);
            &&& here ==> listed_at(shelf->0@, wcid, worth)
            &&& !here ==> {
                ||| exists|k: int|
                    0 <= k < shops.len() && listed_at((#[trigger] shops[k]).sells@, wcid, worth)
                        && forall|j: int|
                        0 <= j < k ==> not_listed((#[trigger] shops[j]).sells@, wcid)
                ||| worth == 0 && forall|k: int|
                    0 <= k < shops.len() ==> not_listed((#[trigger] shops[k]).sells@, wcid)
            }
        }),
{
    if let Some(wares) = shelf {
        lemma_listed(wares@, wcid, 0);
        if listed_from(wares@, wcid, 0) is Some {
            let v = listed_from(wares@, wcid, 0)->0;
            assert(listed_at(wares@, wcid, v));
            assert(!not_listed(wares@, wcid));
        }
    }
    lemma_sold(shops, wcid, 0);
}

/// What came of a pour: one in the air is waited for; one that landed is counted as
/// poured and told of; one that was refused is told of with the server's reason,
/// where it gave one, and the refusals it answers are read; one that was lost is
/// told of as such. All but the first are over.
pub proof fn law_what_comes_of_a_pour(
    sent: PourSent,
    at: Moment,
    answer: PourAnswer,
    from_refused: Option<Moment>,
    to_refused: Option<Moment>,
)
    ensures
        ({
            let (came, orders, over) = pour_settled(sent, at, answer, from_refused, to_refused);
            let from = sent.merge.from;
            let to = sent.merge.to;
            &&& over <==> !(answer is InAir)
            &&& answer is InAir ==> came is Some && came->0 is Waiting && orders.len() == 0
            &&& answer is Landed ==> came is None && orders.len() == 2 && orders[0]
                == (Deed::Merged { from, to }) && orders[1] == (Deed::PourWent {
                from,
                to,
                how: PourEnd::Landed,
            })
            &&& answer is Lost ==> came is None && orders.len() == 1 && orders[0]
                == (Deed::PourWent { from, to, how: PourEnd::NoWord })
            &&& answer is Refused ==> {
                &&& came is Some
                &&& answer->Refused_0 != 0 ==> came == Some(Came::Server(answer->Refused_0))
                &&& answer->Refused_0 == 0 ==> came->0 is Ours
                &&& orders.len() > 0
                &&& orders.last() == (Deed::PourWent {
                    from,
                    to,
                    how: PourEnd::Refused(answer->Refused_0),
                })
                &&& orders.contains(Deed::RefusalRead(from)) <==> (from_refused is Some
                    && from_refused->0 >= at) || (from == to && to_refused is Some && to_refused->0
                    >= at)
                &&& orders.contains(Deed::RefusalRead(to)) <==> (to_refused is Some
                    && to_refused->0 >= at) || (from == to && from_refused is Some
                    && from_refused->0 >= at)
            }
        }),
{
    if let PourAnswer::Refused(code) = answer {
        let from = sent.merge.from;
        let to = sent.merge.to;
        let read = refusals_read(from, to, from_refused, to_refused, at);
        let orders = pour_settled(sent, at, answer, from_refused, to_refused).1;
        assert(forall|i: int| 0 <= i < read.len() ==> orders[i] == #[trigger] read[i]);
        let a = from_refused is Some && from_refused->0 >= at;
        let b = to_refused is Some && to_refused->0 >= at;
        if a {
            assert(orders[0] == Deed::RefusalRead(from));
            if b && from != to {
                assert(orders[1] == Deed::RefusalRead(to));
            }
        } else if b {
            assert(orders[0] == Deed::RefusalRead(to));
        }
    }
}

/// A stack is held where an errand is about it, whichever of the two it is.
pub proof fn law_what_an_errand_holds(errands: Seq<Option<u32>>, from: u32, to: u32)
    ensures
        held_by_one(errands, from, to) <==> errands.contains(Some(from)) || errands.contains(
            Some(to),
        ),
        held_by_one(errands, from, to) == held_by_one(errands, to, from),
{
    if errands.contains(Some(from)) {
        let i = choose|i: int| 0 <= i < errands.len() && errands[i] == Some(from);
        assert(errands[i] == Some(from) || errands[i] == Some(to));
    }
    if errands.contains(Some(to)) {
        let i = choose|i: int| 0 <= i < errands.len() && errands[i] == Some(to);
        assert(errands[i] == Some(from) || errands[i] == Some(to));
    }
}

/// A stack that is there holds one at least, and one that is not holds none.
pub proof fn law_how_many_a_stack_holds(size: Option<u32>)
    ensures
        size is None ==> stack_of(size) == 0,
        size is Some && size->0 > 0 ==> stack_of(size) == size->0,
        size == Some(0u32) ==> stack_of(size) == 1,
{
}

/// A character that is not in the world does nothing.
pub proof fn law_nothing_grows_outside_the_world(
    before: State,
    after: State,
    look: GrowLook,
    cfg: Growth,
    team: Team,
    party: Seq<Supplies>,
    mates: nat,
    now: Moment,
    given: Seq<Deed>,
    orders: Seq<Deed>,
    next: GrowNext,
)
    requires
        grows(before, after, look, cfg, team, party, mates, now, given, orders, next),
        !look.in_world,
    ensures
        after == before,
        orders == given,
        next == GrowNext::Nothing,
{
}

/// A hand's say is told of where the run is held or taken on, once, and not where
/// there is none or it has just stepped in.
pub proof fn law_a_hand_is_told_of(
    before: State,
    after: State,
    cfg: Growth,
    now: Moment,
    given: Seq<Deed>,
    orders: Seq<Deed>,
    next: GrowNext,
)
    requires
        panel_has_its_say(before, after, cfg, now, given, orders, next),
    ensures
        ({
            let told = before.by_hand && before.run is Some && !(before.hand_stepped is Some && now
                < before.hand_stepped->0 + 1_000_000_000);
            &&& !told ==> orders == given
            &&& told ==> orders.len() == given.len() + 1 && orders.drop_last() == given
            &&& told && cfg.town_runs ==> orders.last() is Note
            &&& told && !cfg.town_runs ==> orders.last() is Say
        }),
{
    if orders.len() > given.len() {
        assert(orders.drop_last() =~= given);
    }
}

/// In the world a turn leaves the character where it is seen to be.
pub proof fn law_a_turn_sees_where_the_character_is(
    before: State,
    after: State,
    look: GrowLook,
    cfg: Growth,
    team: Team,
    party: Seq<Supplies>,
    mates: nat,
    now: Moment,
    given: Seq<Deed>,
    orders: Seq<Deed>,
    next: GrowNext,
)
    requires
        grows(before, after, look, cfg, team, party, mates, now, given, orders, next),
        look.in_world,
    ensures
        after.in_dungeon == look.underground,
        look.outdoors is Some ==> after.last_outdoors == look.outdoors,
        mates == 0 || !team.enabled || !team.restock.together ==> after.mode is Hunting,
        !cfg.town_runs && !before.by_hand ==> after.run is None,
        next is GoOn ==> next == (GrowNext::GoOn { town: cfg.town_runs, mode: after.mode }),
        !(next is Nothing),
{
}

} // verus!
