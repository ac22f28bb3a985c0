//! What holds of what experience is spent on.

use crate::advance::Ladder;
use crate::raises::{
    batched, best, chosen, for_sale, lemma_best, lemma_to_go, next_bids, offered, planned, standing,
    to_go, Batch, Climb, Offer,
};
use crate::raises_laws::all_wf;
use crate::single::Single;
use vstd::prelude::*;

verus! {

/// Something is worth anything: it weighs more than nothing.
pub open spec fn worthy(weight: Single) -> bool {
    (Single { bits: 0 }).below(weight)
}

/// What a point of worth costs.
pub open spec fn per_worth(cost: u32, weight: Single) -> Single {
    Single::whole(cost as int).quotient(weight)
}

/// One buy goes ahead of another: less is paid for its worth, or as much and the
/// buy itself is cheaper.
pub open spec fn goes_ahead(cost: u32, weight: Single, other: u32, others: Single) -> bool {
    let mine = per_worth(cost, weight).place();
    let theirs = per_worth(other, others).place();
    mine < theirs || (mine == theirs && cost < other)
}

/// An offer is the best buy: it is worth something, no other goes ahead of it, and
/// it goes ahead of every one before it.
pub open spec fn best_offer(offers: Seq<Offer>, i: int) -> bool {
    &&& 0 <= i < offers.len()
    &&& worthy(offers[i].weight)
    &&& forall|j: int|
        0 <= j < offers.len() && worthy((#[trigger] offers[j]).weight) ==> !goes_ahead(
            offers[j].cost,
            offers[j].weight,
            offers[i].cost,
            offers[i].weight,
        )
    &&& forall|j: int|
        0 <= j < i && worthy((#[trigger] offers[j]).weight) ==> goes_ahead(
            offers[i].cost,
            offers[i].weight,
            offers[j].cost,
            offers[j].weight,
        )
}

/// What is chosen is the best buy of all the offers, where it can be paid for; a
/// lesser buy is never made in its place. Nothing is chosen where no offer is
/// worth anything or the best costs more than there is.
pub proof fn law_the_best_buy_is_chosen(offers: Seq<Offer>, xp: int)
    ensures
        match chosen(offers, xp) {
            Some(raise) => exists|i: int|
                best_offer(offers, i) && (#[trigger] offers[i]).raise == raise && offers[i].cost
                    <= xp,
            None => {
                ||| forall|i: int|
                    0 <= i < offers.len() ==> !worthy((#[trigger] offers[i]).weight)
                ||| exists|i: int| best_offer(offers, i) && (#[trigger] offers[i]).cost > xp
            },
        },
{
    let line = offered(offers);
    lemma_best(line, line.len());
    assert forall|j: int| 0 <= j < offers.len() implies (worthy((#[trigger] offers[j]).weight)
        <==> line[j] is Some) by {}
    match best(line, offers.len()) {
        Some(i) => {
            assert(line[i] is Some);
            assert forall|j: int|
                0 <= j < offers.len() && worthy((#[trigger] offers[j]).weight) implies !goes_ahead(
                offers[j].cost,
                offers[j].weight,
                offers[i].cost,
                offers[i].weight,
            ) by {
                assert(line[j] is Some);
            }
            assert forall|j: int|
                0 <= j < i && worthy((#[trigger] offers[j]).weight) implies goes_ahead(
                offers[i].cost,
                offers[i].weight,
                offers[j].cost,
                offers[j].weight,
            ) by {
                assert(line[j] is Some);
            }
            assert(best_offer(offers, i));
        },
        None => {
            assert forall|j: int| 0 <= j < offers.len() implies !worthy(
                (#[trigger] offers[j]).weight,
            ) by {
                assert(line[j] is None);
            }
        },
    }
}

/// What the rank above the one a ladder stands at still takes: what it costs in
/// all, less what is paid.
pub open spec fn still_takes(l: Ladder, rank: u32) -> int {
    let paid = if rank == l.ranks {
        l.spent as int
    } else {
        l.table@[rank as int] as int
    };
    l.table@[rank + 1] - paid
}

/// What climbing costs: a rank takes the difference between what it costs in all
/// and what is paid, none is offered above the last, and climbing to a rank takes
/// what each rank on the way takes.
pub proof fn law_a_rank_takes_what_is_not_yet_paid(l: Ladder, rank: u32)
    requires
        l.wf(),
        l.ranks <= rank,
    ensures
        rank + 1 < l.table@.len() ==> l.spec_step(rank) == Some(still_takes(l, rank) as u32) && 0
            <= still_takes(l, rank) <= u32::MAX,
        rank + 1 >= l.table@.len() ==> l.spec_step(rank) is None,
        rank >= l.table@.len() ==> l.spec_cost_to(rank) is None,
        l.spec_cost_to(l.ranks) == Some(0u32),
        rank + 1 < l.table@.len() ==> l.spec_cost_to((rank + 1) as u32)->0 == l.spec_cost_to(
            rank,
        )->0 + l.spec_step(rank)->0,
        rank + 1 < l.table@.len() ==> l.spec_cost_to((rank + 1) as u32) is Some,
{
    if rank + 1 < l.table@.len() {
        assert(l.table@[l.ranks as int] <= l.table@[rank as int]);
        assert(l.table@[rank as int] <= l.table@[rank + 1]);
        if rank > l.ranks {
            assert(l.table@[l.ranks + 1] <= l.table@[rank as int]);
        }
    }
}

/// The next rank of a stat can be had and is worth anything.
pub open spec fn climbs(c: Climb, rank: u32) -> bool {
    rank + 1 < c.ladder.table@.len() && rank < u32::MAX && worthy(c.weight)
}

/// The next rank of one stat goes ahead of that of another.
pub open spec fn climbs_ahead(c: Climb, rank: u32, other: Climb, others: u32) -> bool {
    goes_ahead(
        c.ladder.spec_step(rank)->0,
        c.weight,
        other.ladder.spec_step(others)->0,
        other.weight,
    )
}

/// The next rank of a stat is the best buy of all of them.
pub open spec fn best_climb(field: Seq<Climb>, at: Seq<u32>, i: int) -> bool {
    &&& 0 <= i < field.len()
    &&& climbs(field[i], at[i])
    &&& forall|j: int|
        0 <= j < field.len() && climbs(#[trigger] field[j], at[j]) ==> !climbs_ahead(
            field[j],
            at[j],
            field[i],
            at[i],
        )
    &&& forall|j: int|
        0 <= j < i && climbs(#[trigger] field[j], at[j]) ==> climbs_ahead(
            field[i],
            at[i],
            field[j],
            at[j],
        )
}

proof fn lemma_climbs(field: Seq<Climb>, at: Seq<u32>)
    requires
        field.len() == at.len(),
    ensures
        match best(next_bids(field, at), field.len()) {
            Some(i) => best_climb(field, at, i) && next_bids(field, at)[i]->0.cost
                == field[i].ladder.spec_step(at[i])->0,
            None => forall|j: int| 0 <= j < field.len() ==> !climbs(#[trigger] field[j], at[j]),
        },
        forall|i: int|
            best_climb(field, at, i) ==> best(next_bids(field, at), field.len()) == Some(i),
{
    let line = next_bids(field, at);
    lemma_best(line, line.len());
    assert forall|j: int| 0 <= j < field.len() implies (climbs(#[trigger] field[j], at[j])
        <==> line[j] is Some) by {}
    match best(line, field.len()) {
        Some(i) => {
            assert(line[i] is Some);
            assert forall|j: int|
                0 <= j < field.len() && climbs(#[trigger] field[j], at[j]) implies !climbs_ahead(
                field[j],
                at[j],
                field[i],
                at[i],
            ) by {
                assert(line[j] is Some);
            }
            assert forall|j: int|
                0 <= j < i && climbs(#[trigger] field[j], at[j]) implies climbs_ahead(
                field[i],
                at[i],
                field[j],
                at[j],
            ) by {
                assert(line[j] is Some);
            }
            assert(best_climb(field, at, i));
            assert forall|k: int| best_climb(field, at, k) implies k == i by {
                assert(field[k] == field[k] && field[i] == field[i]);
            }
        },
        None => {
            assert forall|j: int| 0 <= j < field.len() implies !climbs(#[trigger] field[j], at[j])
                by {
                assert(line[j] is None);
            }
        },
    }
}

/// Spending on paper buys the best next rank there is, one at a time, as long as
/// it can be paid for: it is bought first where it can, and where it cannot, or
/// where there is none, nothing is.
pub proof fn law_the_pool_goes_to_the_best_rank(field: Seq<Climb>, at: Seq<u32>, left: int, i: int)
    requires
        field.len() == at.len(),
    ensures
        best_climb(field, at, i) && field[i].ladder.spec_step(at[i])->0 <= left ==> planned(
            field,
            at,
            left,
        ) == planned(
            field,
            at.update(i, (at[i] + 1) as u32),
            left - field[i].ladder.spec_step(at[i])->0,
        ),
        best_climb(field, at, i) && field[i].ladder.spec_step(at[i])->0 > left ==> planned(
            field,
            at,
            left,
        ) == (at, left),
        (forall|j: int| 0 <= j < field.len() ==> !climbs(#[trigger] field[j], at[j])) ==> planned(
            field,
            at,
            left,
        ) == (at, left),
{
    lemma_climbs(field, at);
}

/// What is left once a pool is spent on paper buys no more: the best next rank
/// costs more than is left, or there is none.
pub proof fn law_the_pool_is_spent_as_far_as_it_goes(field: Seq<Climb>, at: Seq<u32>, left: int)
    requires
        field.len() == at.len(),
    ensures
        ({
            let (ranks, over) = planned(field, at, left);
            &&& ranks.len() == at.len()
            &&& forall|i: int|
                best_climb(field, ranks, i) ==> (#[trigger] field[i]).ladder.spec_step(ranks[i])->0
                    > over
        }),
    decreases to_go(field, at, field.len()),
{
    let line = next_bids(field, at);
    lemma_climbs(field, at);
    if let Some(i) = best(line, line.len()) {
        let cost = line[i]->0.cost;
        if cost <= left {
            lemma_to_go(field, at, i, field.len());
            law_the_pool_is_spent_as_far_as_it_goes(
                field,
                at.update(i, (at[i] + 1) as u32),
                left - cost,
            );
        }
    }
}

/// A stat may be bought now: it is not held back, and the paper run raises it.
pub open spec fn may_be_bought(field: Seq<Climb>, to: Seq<u32>, i: int) -> bool {
    &&& 0 <= i < field.len()
    &&& !field[i].held
    &&& to[i] > field[i].ladder.ranks
    &&& climbs(field[i], field[i].ladder.ranks)
}

/// A stat is the one to buy: the best next rank of those that may be bought now.
pub open spec fn best_to_buy(field: Seq<Climb>, to: Seq<u32>, i: int) -> bool {
    &&& may_be_bought(field, to, i)
    &&& forall|j: int|
        #![trigger field[j]]
        may_be_bought(field, to, j) ==> !climbs_ahead(
            field[j],
            field[j].ladder.ranks,
            field[i],
            field[i].ladder.ranks,
        )
    &&& forall|j: int|
        #![trigger field[j]]
        j < i && may_be_bought(field, to, j) ==> climbs_ahead(
            field[i],
            field[i].ladder.ranks,
            field[j],
            field[j].ladder.ranks,
        )
}

/// A message is the right one for a stat: all the ranks that the paper run gives
/// it where the pool would pay for its next rank ten times, and one rank where it
/// would not; for what that takes.
pub open spec fn right_batch(c: Climb, to: u32, xp: int, b: Batch) -> bool {
    let first = c.ladder.spec_step(c.ladder.ranks)->0;
    &&& xp >= 10 * first ==> b.ranks == to - c.ladder.ranks
    &&& xp < 10 * first ==> b.ranks == 1
    &&& c.ladder.spec_cost_to((c.ladder.ranks + b.ranks) as u32) == Some(b.xp)
}

/// What is bought at once is the best buy of the stats that the pool, spent on
/// paper, raises and that are not held back; it is given its whole share of a
/// large pool and one rank of a small one. Nothing is bought only where there is
/// no such stat.
pub proof fn law_a_message_buys_the_best_stat(field: Seq<Climb>, xp: int)
    requires
        all_wf(field),
        xp >= 0,
    ensures
        ({
            let to = planned(field, standing(field), xp).0;
            match batched(field, xp) {
                Some((raise, batch)) => exists|i: int|
                    best_to_buy(field, to, i) && (#[trigger] field[i]).raise == raise
                        && right_batch(field[i], to[i], xp, batch),
                None => forall|i: int|
                    #![trigger field[i]]
                    !may_be_bought(field, to, i),
            }
        }),
{
    let at = standing(field);
    let to = planned(field, at, xp).0;
    let line = for_sale(field, to);
    crate::raises_laws::law_a_plan_never_overspends(field, at, xp);
    lemma_best(line, line.len());
    assert forall|j: int|
        #![trigger field[j]]
        0 <= j < field.len() implies (may_be_bought(field, to, j) <==> line[j] is Some) by {}
    match best(line, line.len()) {
        Some(i) => {
            assert(line[i] is Some);
            assert forall|j: int|
                #![trigger field[j]]
                may_be_bought(field, to, j) implies !climbs_ahead(
                field[j],
                field[j].ladder.ranks,
                field[i],
                field[i].ladder.ranks,
            ) by {
                assert(line[j] is Some);
            }
            assert forall|j: int|
                #![trigger field[j]]
                j < i && may_be_bought(field, to, j) implies climbs_ahead(
                field[i],
                field[i].ladder.ranks,
                field[j],
                field[j].ladder.ranks,
            ) by {
                assert(line[j] is Some);
            }
            assert(field[i].ladder.wf());
            assert(best_to_buy(field, to, i));
            let c = field[i];
            assert(to[i] < c.ladder.table@.len());
            assert(c.ladder.ranks + 1 < c.ladder.table@.len());
        },
        None => {
            assert forall|i: int|
                #![trigger field[i]]
                !may_be_bought(field, to, i) by {
                if 0 <= i < field.len() {
                    assert(line[i] is None);
                }
            }
        },
    }
}

/// The rank that more experience brings a stat to is the highest that is paid for:
/// every rank above it costs more than there is, and more experience never brings
/// it to a lower one.
pub proof fn law_the_highest_rank_paid_for(l: Ladder, xp: u32, more: u32, r: u32, s: u32)
    requires
        l.wf(),
        l.is_rank_after(xp, r),
        l.is_rank_after(more, s),
        xp <= more,
    ensures
        l.ranks <= r < l.table@.len(),
        r > l.ranks ==> l.table@[r as int] <= l.spent + xp,
        forall|q: int| r < q < l.table@.len() ==> #[trigger] l.table@[q] > l.spent + xp,
        r <= s,
        xp == more ==> r == s,
{
    assert forall|q: int| r < q < l.table@.len() implies #[trigger] l.table@[q] > l.spent + xp by {
        assert(l.table@[r + 1] <= l.table@[q]);
    }
    if s < r {
        assert(l.table@[s + 1] <= l.table@[r as int]);
    }
    if xp == more && r < s {
        assert(l.table@[r + 1] <= l.table@[s as int]);
    }
}

} // verus!
