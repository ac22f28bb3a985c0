//! What holds of which counter a run goes to.

use crate::counters::{Errand, Look, Want};
use crate::place::Spot;
use crate::single::Single;
use crate::text::{alike, lower_case, trimmed};
use crate::vendors::{
    are_wants, best_counter, by_worth, cap_of, in_ring, is_first, law_no_counter_is_better, look_at,
    may_walk_to, named_stand, nearest_mark, picked, reach_of, ring_stand, rings, seen_pick, Choice,
    Field, Pick, Stand, Stop, Way,
};
use crate::wares::{Need, NeedKind, Salable};
use vstd::prelude::*;
use vstd::string::*;

verus! {

/// A run looks for a counter 600 metres round, then 3000, then 15000, each only
/// where it is within how far the run may go, and then as far as it may; and at no
/// other distance.
pub proof fn law_a_run_looks_further_and_further(within: Option<Single>)
    ensures
        ({
            let all = rings(cap_of(within));
            let town = Single { bits: 0x4416_0000 };
            let about = Single { bits: 0x453b_8000 };
            let long = Single { bits: 0x466a_6000 };
            let cap = match within {
                Some(w) => w,
                None => Single { bits: 0x7f80_0000 },
            };
            &&& town.below(cap) ==> all.len() >= 2 && all[0] == town
            &&& about.below(cap) ==> all.len() >= 3 && all[1] == about
            &&& long.below(cap) ==> all.len() == 4 && all[2] == long
            &&& !long.below(cap) && about.below(cap) ==> all.len() == 3
            &&& !about.below(cap) && town.below(cap) ==> all.len() == 2
            &&& !town.below(cap) ==> all.len() == 1
            &&& all[all.len() - 1] == cap
        }),
{
}

/// One trip buys better than another: it covers the whole order and the other does
/// not; or in that they are alike, and it covers more lines; or in both, and it
/// brings in more.
pub open spec fn buys_better(a: Look, b: Look) -> bool {
    if a.covers_it() != b.covers_it() {
        a.covers_it()
    } else if a.stocks.len() != b.stocks.len() {
        a.stocks.len() > b.stocks.len()
    } else {
        a.takings > b.takings
    }
}

/// One trip sells better than another: it brings in more, or as much for more
/// things.
pub open spec fn sells_better(a: Look, b: Look) -> bool {
    a.takings > b.takings || (a.takings == b.takings && a.selling > b.selling)
}

/// One counter is the better to go to: for buying by what it sells the run; for
/// selling by what it pays, and then by what it sells; nearer where they are alike
/// in all of it.
pub open spec fn goes_first(errand: Errand, a: Look, near_a: Single, b: Look, near_b: Single) -> bool {
    match errand {
        Errand::Buy => buys_better(a, b) || (!buys_better(b, a) && near_a.place()
            < near_b.place()),
        Errand::Sell => sells_better(a, b) || (!sells_better(b, a) && (buys_better(a, b) || (
        !buys_better(b, a) && near_a.place() < near_b.place()))),
    }
}

/// Which of two counters is better goes by what is better about it, both ways, and
/// neither is where nothing is.
pub proof fn law_the_better_counter_is_better(
    errand: Errand,
    a: Look,
    near_a: Single,
    b: Look,
    near_b: Single,
)
    ensures
        by_worth(errand, a, near_a, b, near_b) == Choice::First <==> goes_first(
            errand,
            a,
            near_a,
            b,
            near_b,
        ),
        by_worth(errand, a, near_a, b, near_b) == Choice::Second <==> goes_first(
            errand,
            b,
            near_b,
            a,
            near_a,
        ),
        by_worth(errand, a, near_a, b, near_b) == Choice::First ==> by_worth(
            errand,
            b,
            near_b,
            a,
            near_a,
        ) == Choice::Second,
{
}

/// How far a place is to go to is how far it is from the nearest of the ways: no
/// way is nearer, and it is as far as one of them, or as far as can be where there
/// is none.
pub proof fn law_the_nearest_way_is_taken(at: Spot, ways: Seq<Way>)
    ensures
        ({
            let far = reach_of(at, ways, ways.len());
            &&& !far.nan()
            &&& forall|i: int|
                0 <= i < ways.len() && !at.spec_away((#[trigger] ways[i]).at).nan() ==> far.at_most(
                    at.spec_away(ways[i].at),
                )
            &&& far == (Single { bits: 0x7f7f_ffff }) || exists|i: int|
                0 <= i < ways.len() && far == at.spec_away((#[trigger] ways[i]).at)
        }),
{
    lemma_reach(at, ways, ways.len());
}

proof fn lemma_reach(at: Spot, ways: Seq<Way>, n: nat)
    requires
        n <= ways.len(),
    ensures
        ({
            let far = reach_of(at, ways, n);
            &&& !far.nan()
            &&& forall|i: int|
                0 <= i < n && !at.spec_away((#[trigger] ways[i]).at).nan() ==> far.at_most(
                    at.spec_away(ways[i].at),
                )
            &&& far == (Single { bits: 0x7f7f_ffff }) || exists|i: int|
                0 <= i < n && far == at.spec_away((#[trigger] ways[i]).at)
        }),
    decreases n,
{
    if n > 0 {
        lemma_reach(at, ways, (n - 1) as nat);
        assert(ways[n - 1] == ways[n - 1]);
    }
}

/// A place can be gone to: it is not held back, it is within how far the run may
/// go, and nowhere within a metre of it has been called at.
pub open spec fn can_go(at: Spot, held: bool, ways: Seq<Way>, stop: Stop) -> bool {
    &&& !held
    &&& match stop.within {
        Some(w) => reach_of(at, ways, ways.len()).at_most(w),
        None => true,
    }
    &&& forall|i: int|
        0 <= i < stop.visited@.len() ==> !(#[trigger] stop.visited@[i]).spec_away(at).below(
            Single { bits: 0x3f80_0000 },
        )
}

proof fn lemma_can_go(at: Spot, held: bool, ways: Seq<Way>, stop: Stop)
    ensures
        may_walk_to(at, held, ways, stop) == can_go(at, held, ways, stop),
{
}

proof fn lemma_wants(wants: Seq<Want>, needs: Seq<Need>, n: nat)
    requires
        n <= needs.len(),
        are_wants(wants, needs, n),
    ensures
        wants.map_values(|w: Want| *w.need) == needs.take(n as int).filter(
            |x: Need| x.want > 0 && x.buyable,
        ),
        forall|i: int|
            0 <= i < wants.len() ==> (#[trigger] wants[i]).needle@ == match wants[i].need.kind {
                NeedKind::Named(t) => lower_case(trimmed(t@)),
                _ => seq![],
            },
    decreases n,
{
    reveal(Seq::filter);
    let p = |x: Need| x.want > 0 && x.buyable;
    let f = |w: Want| *w.need;
    let all = needs.take(n as int);
    if n == 0 {
        assert(wants.map_values(f) =~= all.filter(p));
    } else {
        assert(all.drop_last() =~= needs.take(n - 1));
        assert(all.last() == needs[n - 1]);
        if p(needs[n - 1]) {
            lemma_wants(wants.drop_last(), needs, (n - 1) as nat);
            assert(wants.map_values(f) =~= wants.drop_last().map_values(f).push(needs[n - 1]));
            assert forall|i: int| 0 <= i < wants.len() implies (#[trigger] wants[i]).needle@
                == match wants[i].need.kind {
                NeedKind::Named(t) => lower_case(trimmed(t@)),
                _ => seq![],
            } by {
                if i < wants.len() - 1 {
                    assert(wants.drop_last()[i] == wants[i]);
                }
            }
        } else {
            lemma_wants(wants, needs, (n - 1) as nat);
        }
    }
}

/// What a run shops for is every need that can be bought and wants some, in
/// order; one by name is looked for by its name without what stands round it, in
/// small letters.
pub proof fn law_a_run_shops_for_every_need(wants: Seq<Want>, needs: Seq<Need>)
    requires
        are_wants(wants, needs, needs.len()),
    ensures
        wants.map_values(|w: Want| *w.need) == needs.filter(|x: Need| x.want > 0 && x.buyable),
        forall|i: int|
            0 <= i < wants.len() ==> (#[trigger] wants[i]).needle@ == match wants[i].need.kind {
                NeedKind::Named(t) => lower_case(trimmed(t@)),
                _ => seq![],
            },
{
    lemma_wants(wants, needs, needs.len());
    assert(needs.take(needs.len() as int) =~= needs);
}

/// A counter does for a run: it is open, it can be gone to, and the trip does what
/// the run is for.
pub open spec fn would_do(f: Field, stop: Stop, wants: Seq<Want>, i: int) -> bool {
    &&& 0 <= i < f.stands@.len()
    &&& f.stands@[i].open
    &&& can_go(f.stands@[i].at, f.stands@[i].held, f.ways@, stop)
    &&& serves(stop.errand, look_at(f.stands@[i], wants, f.purse, f.salables@))
}

/// A trip does what a run is for: one to sell sells something; one to buy sells
/// something or can pay for the cheapest thing it wants.
pub open spec fn serves(errand: Errand, look: Look) -> bool {
    look.selling > 0 || (errand == Errand::Buy && look.cheapest > 0 && look.funds()
        >= look.cheapest)
}

/// A counter is within a distance.
pub open spec fn is_within(f: Field, i: int, far: Single) -> bool {
    reach_of(f.stands@[i].at, f.ways@, f.ways@.len()).at_most(far)
}

/// A counter goes before another on a run.
pub open spec fn is_ahead(f: Field, stop: Stop, wants: Seq<Want>, i: int, k: int) -> bool {
    goes_first(
        stop.errand,
        look_at(f.stands@[i], wants, f.purse, f.salables@),
        reach_of(f.stands@[i].at, f.ways@, f.ways@.len()),
        look_at(f.stands@[k], wants, f.purse, f.salables@),
        reach_of(f.stands@[k].at, f.ways@, f.ways@.len()),
    )
}

/// A counter is the best within a distance.
pub open spec fn is_best_within(
    f: Field,
    stop: Stop,
    wants: Seq<Want>,
    i: int,
    far: Single,
) -> bool {
    &&& would_do(f, stop, wants, i)
    &&& is_within(f, i, far)
    &&& forall|k: int|
        #![trigger f.stands@[k]]
        would_do(f, stop, wants, k) && is_within(f, k, far) ==> !is_ahead(f, stop, wants, k, i)
    &&& forall|k: int|
        #![trigger f.stands@[k]]
        k < i && would_do(f, stop, wants, k) && is_within(f, k, far) ==> is_ahead(
            f,
            stop,
            wants,
            i,
            k,
        )
}

/// No counter does within a distance.
pub open spec fn none_within(f: Field, stop: Stop, wants: Seq<Want>, far: Single) -> bool {
    forall|k: int|
        #![trigger f.stands@[k]]
        would_do(f, stop, wants, k) ==> !is_within(f, k, far)
}

proof fn lemma_first_of_ties(
    counters: Seq<Stand>,
    near: Seq<Option<Single>>,
    errand: Errand,
    wants: Seq<Want>,
    purse: u32,
    salables: Seq<Salable>,
    n: nat,
)
    requires
        n <= counters.len() == near.len(),
    ensures
        match best_counter(counters, near, errand, wants, purse, salables, n) {
            Some(i) => forall|k: int|
                0 <= k < i && (#[trigger] near[k]) is Some && errand.spec_served_by(
                    look_at(counters[k], wants, purse, salables),
                ) ==> is_first(
                    errand,
                    look_at(counters[i], wants, purse, salables),
                    near[i]->0,
                    look_at(counters[k], wants, purse, salables),
                    near[k]->0,
                ),
            None => true,
        },
    decreases n,
{
    if n > 0 {
        let i = n - 1;
        lemma_first_of_ties(counters, near, errand, wants, purse, salables, i as nat);
        law_no_counter_is_better(counters, near, errand, wants, purse, salables, i as nat);
        let was = best_counter(counters, near, errand, wants, purse, salables, i as nat);
        let now = best_counter(counters, near, errand, wants, purse, salables, n);
        if now == Some(i) && was is Some {
            assert forall|k: int|
                0 <= k < i && (#[trigger] near[k]) is Some && errand.spec_served_by(
                    look_at(counters[k], wants, purse, salables),
                ) implies is_first(
                errand,
                look_at(counters[i], wants, purse, salables),
                near[i]->0,
                look_at(counters[k], wants, purse, salables),
                near[k]->0,
            ) by {
                let b = was->0;
                assert(!is_first(
                    errand,
                    look_at(counters[k], wants, purse, salables),
                    near[k]->0,
                    look_at(counters[b], wants, purse, salables),
                    near[b]->0,
                ));
            }
        }
    }
}

proof fn lemma_best_within(f: Field, stop: Stop, wants: Seq<Want>, far: Single)
    ensures
        match best_counter(
            f.stands@,
            in_ring(f.stands@, f.ways@, stop, far),
            stop.errand,
            wants,
            f.purse,
            f.salables@,
            f.stands@.len(),
        ) {
            Some(i) => is_best_within(f, stop, wants, i, far),
            None => none_within(f, stop, wants, far),
        },
{
    let near = in_ring(f.stands@, f.ways@, stop, far);
    let n = f.stands@.len();
    law_no_counter_is_better(f.stands@, near, stop.errand, wants, f.purse, f.salables@, n);
    lemma_first_of_ties(f.stands@, near, stop.errand, wants, f.purse, f.salables@, n);
    assert forall|k: int| 0 <= k < n implies ((#[trigger] near[k]) is Some
        && stop.errand.spec_served_by(look_at(f.stands@[k], wants, f.purse, f.salables@)) <==> (
    would_do(f, stop, wants, k) && is_within(f, k, far))) && (near[k] is Some ==> near[k]
        == Some(reach_of(f.stands@[k].at, f.ways@, f.ways@.len()))) by {
        lemma_can_go(f.stands@[k].at, f.stands@[k].held, f.ways@, stop);
    }
    match best_counter(f.stands@, near, stop.errand, wants, f.purse, f.salables@, n) {
        Some(i) => {
            assert(near[i] is Some);
            assert forall|k: int|
                #![trigger f.stands@[k]]
                would_do(f, stop, wants, k) && is_within(f, k, far) implies !is_ahead(
                f,
                stop,
                wants,
                k,
                i,
            ) && (k < i ==> is_ahead(f, stop, wants, i, k)) by {
                assert(near[k] is Some);
                let a = look_at(f.stands@[k], wants, f.purse, f.salables@);
                let b = look_at(f.stands@[i], wants, f.purse, f.salables@);
                law_the_better_counter_is_better(stop.errand, a, near[k]->0, b, near[i]->0);
            }
        },
        None => {
            assert forall|k: int|
                #![trigger f.stands@[k]]
                would_do(f, stop, wants, k) implies !is_within(f, k, far) by {
                if is_within(f, k, far) {
                    assert(near[k] is Some);
                }
            }
        },
    }
}

proof fn lemma_rings(f: Field, stop: Stop, wants: Seq<Want>, k: int)
    requires
        0 <= k <= rings(cap_of(stop.within)).len(),
    ensures
        match ring_stand(f, stop, wants, k) {
            Some(i) => exists|r: int|
                k <= r < rings(cap_of(stop.within)).len() && is_best_within(
                    f,
                    stop,
                    wants,
                    i,
                    #[trigger] rings(cap_of(stop.within))[r],
                ) && forall|q: int|
                    k <= q < r ==> none_within(
                        f,
                        stop,
                        wants,
                        #[trigger] rings(cap_of(stop.within))[q],
                    ),
            None => forall|q: int|
                k <= q < rings(cap_of(stop.within)).len() ==> none_within(
                    f,
                    stop,
                    wants,
                    #[trigger] rings(cap_of(stop.within))[q],
                ),
        },
    decreases rings(cap_of(stop.within)).len() - k,
{
    let all = rings(cap_of(stop.within));
    if k < all.len() {
        lemma_best_within(f, stop, wants, all[k]);
        lemma_rings(f, stop, wants, k + 1);
        let here = best_counter(
            f.stands@,
            in_ring(f.stands@, f.ways@, stop, all[k]),
            stop.errand,
            wants,
            f.purse,
            f.salables@,
            f.stands@.len(),
        );
        if here is None && ring_stand(f, stop, wants, k) is Some {
            let i = ring_stand(f, stop, wants, k)->0;
            let r = choose|r: int|
                k + 1 <= r < all.len() && is_best_within(f, stop, wants, i, #[trigger] all[r])
                    && forall|q: int|
                    k + 1 <= q < r ==> none_within(f, stop, wants, #[trigger] all[q]);
            assert(is_best_within(f, stop, wants, i, all[r]));
        }
    }
}

/// A counter has the name that was asked for, whatever the letters, and can be
/// gone to.
pub open spec fn is_called_for(f: Field, stop: Stop, i: int) -> bool {
    &&& 0 <= i < f.stands@.len()
    &&& f.named is Some
    &&& f.stands@[i].open
    &&& can_go(f.stands@[i].at, f.stands@[i].held, f.ways@, stop)
    &&& alike(f.stands@[i].shop.name@, f.named->0@)
}

/// A counter is the first that has the name that was asked for.
pub open spec fn first_called_for(f: Field, stop: Stop, i: int) -> bool {
    is_called_for(f, stop, i) && forall|k: int|
        #![trigger f.stands@[k]]
        k < i ==> !is_called_for(f, stop, k)
}

proof fn lemma_called(f: Field, stop: Stop, i: int)
    requires
        0 <= i <= f.stands@.len(),
        forall|k: int|
            #![trigger f.stands@[k]]
            k < i ==> !is_called_for(f, stop, k),
    ensures
        match named_stand(f, stop, i) {
            Some(k) => first_called_for(f, stop, k),
            None => forall|k: int|
                #![trigger f.stands@[k]]
                !is_called_for(f, stop, k),
        },
    decreases f.stands@.len() - i,
{
    if f.named is Some && i < f.stands@.len() {
        let s = f.stands@[i];
        lemma_can_go(s.at, s.held, f.ways@, stop);
        if !is_called_for(f, stop, i) {
            lemma_called(f, stop, i + 1);
        }
    }
}

/// A counter's line of the pick: its name, where it is and what the trip there
/// comes to.
pub open spec fn is_counter(f: Field, wants: Seq<Want>, i: int, p: (String, Spot, Look)) -> bool {
    &&& p.0 == f.stands@[i].shop.name
    &&& p.1 == f.stands@[i].at
    &&& p.2 == look_at(f.stands@[i], wants, f.purse, f.salables@)
}

/// The counter that was asked for by name is gone to before any other, where the
/// trip does what the run is for.
pub proof fn law_the_counter_asked_for_comes_first(f: Field, stop: Stop, wants: Seq<Want>, i: int)
    requires
        first_called_for(f, stop, i),
        serves(stop.errand, look_at(f.stands@[i], wants, f.purse, f.salables@)),
    ensures
        picked(f, stop, wants) is Some && is_counter(f, wants, i, picked(f, stop, wants)->0),
{
    lemma_called(f, stop, 0);
    let k = named_stand(f, stop, 0)->0;
    assert(f.stands@[i] == f.stands@[i] && f.stands@[k] == f.stands@[k]);
    assert(k == i);
}

/// Otherwise the run goes to a counter that would do wherever there is one: the
/// best of those within the least distance within which there are any.
pub proof fn law_the_best_of_the_nearest_is_picked(f: Field, stop: Stop, wants: Seq<Want>)
    requires
        stop.within is Some ==> !stop.within->0.nan(),
        forall|i: int|
            first_called_for(f, stop, i) ==> !serves(
                stop.errand,
                look_at(#[trigger] f.stands@[i], wants, f.purse, f.salables@),
            ),
        exists|i: int| #[trigger] would_do(f, stop, wants, i),
    ensures
        picked(f, stop, wants) is Some,
        exists|i: int, r: int|
            is_counter(f, wants, i, picked(f, stop, wants)->0) && 0 <= r < rings(
                cap_of(stop.within),
            ).len() && #[trigger] is_best_within(
                f,
                stop,
                wants,
                i,
                rings(cap_of(stop.within))[r],
            ) && forall|q: int|
                0 <= q < r ==> none_within(
                    f,
                    stop,
                    wants,
                    #[trigger] rings(cap_of(stop.within))[q],
                ),
{
    let all = rings(cap_of(stop.within));
    lemma_called(f, stop, 0);
    lemma_rings(f, stop, wants, 0);
    lemma_some_ring(f, stop, wants);
    let i = ring_stand(f, stop, wants, 0)->0;
    let r = choose|r: int|
        0 <= r < all.len() && is_best_within(f, stop, wants, i, #[trigger] all[r]) && forall|
            q: int,
        |
            0 <= q < r ==> none_within(f, stop, wants, #[trigger] all[q]);
    assert(is_best_within(f, stop, wants, i, all[r]));
    assert(is_counter(f, wants, i, picked(f, stop, wants)->0));
}

/// The last ring holds every counter that would do.
proof fn lemma_some_ring(f: Field, stop: Stop, wants: Seq<Want>)
    requires
        stop.within is Some ==> !stop.within->0.nan(),
    ensures
        (exists|i: int| #[trigger] would_do(f, stop, wants, i)) <==> ring_stand(f, stop, wants, 0)
            is Some,
{
    let all = rings(cap_of(stop.within));
    let last = all.len() - 1;
    lemma_rings(f, stop, wants, 0);
    law_a_run_looks_further_and_further(stop.within);
    if exists|i: int| #[trigger] would_do(f, stop, wants, i) {
        let i = choose|i: int| #[trigger] would_do(f, stop, wants, i);
        law_the_nearest_way_is_taken(f.stands@[i].at, f.ways@);
        assert(is_within(f, i, all[last]));
        if ring_stand(f, stop, wants, 0) is None {
            assert(none_within(f, stop, wants, all[last]));
            assert(f.stands@[i] == f.stands@[i]);
        }
    }
    if ring_stand(f, stop, wants, 0) is Some {
        let i = ring_stand(f, stop, wants, 0)->0;
        let r = choose|r: int|
            0 <= r < all.len() && is_best_within(f, stop, wants, i, #[trigger] all[r]) && forall|
                q: int,
            |
                0 <= q < r ==> none_within(f, stop, wants, #[trigger] all[q]);
        assert(would_do(f, stop, wants, i));
    }
}

/// A landmark is the nearest that can be gone to, the first of several as near.
pub open spec fn is_nearest_mark(f: Field, stop: Stop, i: int) -> bool {
    &&& 0 <= i < f.marks@.len()
    &&& can_go(f.marks@[i].at, f.marks@[i].held, f.ways@, stop)
    &&& forall|k: int|
        0 <= k < f.marks@.len() && can_go(
            (#[trigger] f.marks@[k]).at,
            f.marks@[k].held,
            f.ways@,
            stop,
        ) ==> reach_of(f.marks@[i].at, f.ways@, f.ways@.len()).place() <= reach_of(
            f.marks@[k].at,
            f.ways@,
            f.ways@.len(),
        ).place()
    &&& forall|k: int|
        0 <= k < i && can_go((#[trigger] f.marks@[k]).at, f.marks@[k].held, f.ways@, stop)
            ==> reach_of(f.marks@[i].at, f.ways@, f.ways@.len()).place() < reach_of(
            f.marks@[k].at,
            f.ways@,
            f.ways@.len(),
        ).place()
}

proof fn lemma_marks(f: Field, stop: Stop, n: nat)
    requires
        n <= f.marks@.len(),
    ensures
        match nearest_mark(f, stop, n) {
            Some(i) => {
                &&& 0 <= i < n
                &&& can_go(f.marks@[i].at, f.marks@[i].held, f.ways@, stop)
                &&& forall|k: int|
                    0 <= k < n && can_go(
                        (#[trigger] f.marks@[k]).at,
                        f.marks@[k].held,
                        f.ways@,
                        stop,
                    ) ==> {
                        let mine = reach_of(f.marks@[i].at, f.ways@, f.ways@.len()).place();
                        let theirs = reach_of(f.marks@[k].at, f.ways@, f.ways@.len()).place();
                        mine <= theirs && (k < i ==> mine < theirs)
                    }
            },
            None => forall|k: int|
                0 <= k < n ==> !can_go(
                    (#[trigger] f.marks@[k]).at,
                    f.marks@[k].held,
                    f.ways@,
                    stop,
                ),
        },
    decreases n,
{
    if n > 0 {
        lemma_marks(f, stop, (n - 1) as nat);
        let m = f.marks@[n - 1];
        lemma_can_go(m.at, m.held, f.ways@, stop);
    }
}

/// Where no counter would do, one to sell goes nowhere; one to buy goes to the
/// nearest landmark, of whose shelves nothing is known, or nowhere where there is
/// none either.
pub proof fn law_without_a_counter_the_nearest_mark_is_tried(
    f: Field,
    stop: Stop,
    wants: Seq<Want>,
)
    requires
        stop.within is Some ==> !stop.within->0.nan(),
        forall|i: int| !#[trigger] would_do(f, stop, wants, i),
    ensures
        stop.errand == Errand::Sell ==> picked(f, stop, wants) is None,
        stop.errand == Errand::Buy ==> match picked(f, stop, wants) {
            Some((name, at, look)) => {
                &&& exists|i: int|
                    is_nearest_mark(f, stop, i) && (#[trigger] f.marks@[i]).name == name
                        && f.marks@[i].at == at
                &&& look.shop == name && look.stocks.len() == 0 && look.bill == 0 && look.cheapest
                    == 0 && look.takings == 0 && look.selling == 0
                &&& look.purse == f.purse
                &&& look.missing == wants.map_values(|w: Want| w.need.name)
            },
            None => forall|i: int|
                0 <= i < f.marks@.len() ==> !can_go(
                    (#[trigger] f.marks@[i]).at,
                    f.marks@[i].held,
                    f.ways@,
                    stop,
                ),
        },
{
    lemma_called(f, stop, 0);
    lemma_some_ring(f, stop, wants);
    lemma_marks(f, stop, f.marks@.len());
    if let Some(i) = named_stand(f, stop, 0) {
        assert(!would_do(f, stop, wants, i));
    }
    if let Some(i) = nearest_mark(f, stop, f.marks@.len()) {
        assert(is_nearest_mark(f, stop, i));
    }
}

/// A pick is seen as it is: its name, its place and what the trip there comes to.
pub proof fn law_a_pick_is_seen_as_it_is(r: Option<Pick>)
    ensures
        r is None <==> seen_pick(r) is None,
        r is Some ==> seen_pick(r) == Some((r->0.name, r->0.at, r->0.look@)),
{
}

} // verus!
