//! What holds of spending experience as a whole.

use crate::advance::Ladder;
use crate::raises::{
    batched, best, better, bid, for_sale, lemma_best, lemma_to_go, next_bid, next_bids, planned,
    standing, to_go, Bid, Climb,
};
use crate::single::{
    digits, lemma_exact, lemma_rounding_keeps_order, lemma_some_nearest, lemma_units_increase,
    nearest, rounds_to, scale, units, Single, INFINITE,
};
use vstd::arithmetic::power2::{lemma_pow2_adds, lemma_pow2_pos, pow2};
use vstd::prelude::*;

verus! {

/// A pool spent in two parts comes to the same ranks as the whole of it spent
/// at once, with the same left over.
pub proof fn law_parts_come_to_the_whole(field: Seq<Climb>, at: Seq<u32>, some: int, more: int)
    requires
        field.len() == at.len(),
        more >= 0,
    ensures
        ({
            let (ranks, left) = planned(field, at, some);
            planned(field, ranks, left + more) == planned(field, at, some + more)
        }),
    decreases to_go(field, at, field.len()),
{
    let line = next_bids(field, at);
    lemma_best(line, line.len());
    if let Some(i) = best(line, line.len()) {
        let cost = line[i]->0.cost;
        assert(line[i] == next_bid(field[i], at[i]));
        if cost <= some {
            lemma_to_go(field, at, i, field.len());
            law_parts_come_to_the_whole(
                field,
                at.update(i, (at[i] + 1) as u32),
                some - cost,
                more,
            );
        }
    }
}

/// Every stat of a field is on a ladder as the game has them.
pub open spec fn all_wf(field: Seq<Climb>) -> bool {
    forall|i: int| 0 <= i < field.len() ==> (#[trigger] field[i]).ladder.wf()
}

/// Every stat stands at its rank or above, on its ladder.
pub open spec fn at_or_above(field: Seq<Climb>, at: Seq<u32>) -> bool {
    &&& field.len() == at.len()
    &&& forall|i: int|
        0 <= i < field.len() ==> field[i].ladder.ranks <= (#[trigger] at[i])
            < field[i].ladder.table@.len()
}

/// What it takes to bring the first `n` stats to `at`.
pub open spec fn outlay(field: Seq<Climb>, at: Seq<u32>, n: nat) -> int
    decreases n,
{
    if n == 0 {
        0
    } else {
        outlay(field, at, (n - 1) as nat) + field[n - 1].ladder.spec_cost_to(at[n - 1])->0
    }
}

proof fn lemma_cost_of_a_step(l: Ladder, rank: u32)
    requires
        l.wf(),
        l.ranks <= rank,
        rank + 1 < l.table@.len(),
    ensures
        l.spec_step(rank) is Some,
        l.spec_cost_to((rank + 1) as u32) == Some(
            (l.spec_cost_to(rank)->0 + l.spec_step(rank)->0) as u32,
        ),
        l.spec_cost_to(rank)->0 + l.spec_step(rank)->0 <= u32::MAX,
{
    assert(l.table@[rank as int] <= l.table@[rank + 1]);
    if rank > l.ranks {
        assert(l.table@[l.ranks + 1] <= l.table@[rank as int]);
    }
}

proof fn lemma_outlay_step(field: Seq<Climb>, at: Seq<u32>, i: int, n: nat)
    requires
        all_wf(field),
        at_or_above(field, at),
        n <= field.len(),
        0 <= i < field.len(),
        at[i] + 1 < field[i].ladder.table@.len(),
    ensures
        outlay(field, at.update(i, (at[i] + 1) as u32), n) == outlay(field, at, n) + if i < n {
            field[i].ladder.spec_step(at[i])->0 as int
        } else {
            0
        },
    decreases n,
{
    if n > 0 {
        lemma_outlay_step(field, at, i, (n - 1) as nat);
        if i == n - 1 {
            lemma_cost_of_a_step(field[i].ladder, at[i]);
        }
    }
}

/// Spending on paper never takes a rank back nor climbs past the top, and what
/// it spends and what is left come to what there was; it never spends more.
pub proof fn law_a_plan_never_overspends(field: Seq<Climb>, at: Seq<u32>, left: int)
    requires
        all_wf(field),
        at_or_above(field, at),
        left >= 0,
    ensures
        ({
            let (ranks, over) = planned(field, at, left);
            &&& over >= 0
            &&& at_or_above(field, ranks)
            &&& forall|i: int| 0 <= i < field.len() ==> at[i] <= #[trigger] ranks[i]
            &&& outlay(field, ranks, field.len()) + over == outlay(field, at, field.len()) + left
        }),
    decreases to_go(field, at, field.len()),
{
    let line = next_bids(field, at);
    lemma_best(line, line.len());
    if let Some(i) = best(line, line.len()) {
        let cost = line[i]->0.cost;
        assert(line[i] == next_bid(field[i], at[i]));
        if cost <= left {
            lemma_to_go(field, at, i, field.len());
            lemma_outlay_step(field, at, i, field.len());
            let next = at.update(i, (at[i] + 1) as u32);
            assert(at_or_above(field, next));
            law_a_plan_never_overspends(field, next, left - cost);
            let ranks = planned(field, at, left).0;
            assert forall|k: int| 0 <= k < field.len() implies at[k] <= #[trigger] ranks[k] by {
                assert(next[k] <= ranks[k]);
            }
        }
    }
}

proof fn lemma_outlay_gap(field: Seq<Climb>, a: Seq<u32>, b: Seq<u32>, i: int, n: nat)
    requires
        all_wf(field),
        at_or_above(field, a),
        at_or_above(field, b),
        forall|k: int| 0 <= k < field.len() ==> a[k] <= #[trigger] b[k],
        n <= field.len(),
        0 <= i < field.len(),
    ensures
        outlay(field, b, n) - outlay(field, a, n) >= 0,
        i < n ==> outlay(field, b, n) - outlay(field, a, n) >= field[i].ladder.spec_cost_to(
            b[i],
        )->0 - field[i].ladder.spec_cost_to(a[i])->0,
    decreases n,
{
    if n > 0 {
        lemma_outlay_gap(field, a, b, i, (n - 1) as nat);
        let l = field[n - 1].ladder;
        assert(a[n - 1] <= b[n - 1]);
        assert(l.table@[a[n - 1] as int] <= l.table@[b[n - 1] as int]);
    }
}

proof fn lemma_outlay_nonnegative(field: Seq<Climb>, at: Seq<u32>, n: nat)
    requires
        at_or_above(field, at),
        n <= field.len(),
    ensures
        outlay(field, at, n) >= 0,
    decreases n,
{
    if n > 0 {
        lemma_outlay_nonnegative(field, at, (n - 1) as nat);
    }
}

proof fn lemma_outlay_standing(field: Seq<Climb>, n: nat)
    requires
        all_wf(field),
        n <= field.len(),
    ensures
        outlay(field, standing(field), n) == 0,
    decreases n,
{
    if n > 0 {
        lemma_outlay_standing(field, (n - 1) as nat);
        assert(field[n - 1].ladder.wf());
    }
}

/// What a message buys is a stat that is not held, by at least a rank and by no
/// more ranks than the paper run gives it, never past the top, at exactly what
/// those ranks cost, and for no more than the pool.
pub proof fn law_a_batch_fits_the_pool(field: Seq<Climb>, xp: int)
    requires
        all_wf(field),
        xp >= 0,
        batched(field, xp) is Some,
    ensures
        ({
            let (raise, batch) = batched(field, xp)->0;
            &&& batch.xp <= xp
            &&& exists|i: int|
                0 <= i < field.len() && bought(field, xp, i) && (#[trigger] field[i]).raise
                    == raise && batch.ranks >= 1 && field[i].ladder.ranks + batch.ranks
                    <= planned(field, standing(field), xp).0[i] && field[i].ladder.ranks
                    + batch.ranks < field[i].ladder.table@.len()
                    && field[i].ladder.spec_cost_to(
                    (field[i].ladder.ranks + batch.ranks) as u32,
                ) == Some(batch.xp)
        }),
{
    let at = standing(field);
    assert(at_or_above(field, at)) by {
        assert forall|i: int| 0 <= i < field.len() implies field[i].ladder.ranks <= (
        #[trigger] at[i]) < field[i].ladder.table@.len() by {
            assert(field[i].ladder.wf());
        }
    }
    law_a_plan_never_overspends(field, at, xp);
    let (to, over) = planned(field, at, xp);
    let line = for_sale(field, to);
    lemma_best(line, line.len());
    let i = best(line, line.len())->0;
    assert(line[i] is Some);
    let c = field[i];
    assert(c.ladder.wf());
    assert(at[i] <= to[i]);
    lemma_outlay_standing(field, field.len());
    lemma_outlay_gap(field, at, to, i, field.len());
    assert(bought(field, xp, i));
    let (raise, batch) = batched(field, xp)->0;
    let top = c.ladder.ranks + batch.ranks;
    assert(c.ladder.table@[top] <= c.ladder.table@[to[i] as int]);
    assert(field[i].raise == raise);
}

/// Stat `i` is the one that a message buys.
pub open spec fn bought(field: Seq<Climb>, xp: int, i: int) -> bool {
    let line = for_sale(field, planned(field, standing(field), xp).0);
    best(line, line.len()) == Some(i) && !field[i].held
}

proof fn lemma_whole_is_finite(n: int) -> (m: int)
    requires
        0 <= n <= u32::MAX,
    ensures
        rounds_to(n * pow2(149), 1, m),
        Single::whole(n) == Single::of(false, m),
        0 <= m < INFINITE,
{
    let m = lemma_some_nearest(n * pow2(149), 1);
    let high: int = 0x4f80_0000;
    lemma_exact(high);
    lemma_pow2_adds(149, 9);
    lemma_pow2_pos(149);
    vstd::arithmetic::power2::lemma2_to64();
    assert(scale(high) == 158 && digits(high) == 0x80_0000);
    let p = pow2(149) as int;
    assert(n * p <= 0x80_0000 * (p * 512)) by (nonlinear_arith)
        requires
            0 <= n <= 0xffff_ffff,
            p > 0,
    ;
    lemma_rounding_keeps_order(n * p, m, units(high), high, 1);
    m
}

/// Of two whole numbers over a third number the smaller is no further along.
proof fn lemma_less_over(a: u32, b: u32, w: int) -> (out: (int, int))
    requires
        a <= b,
        0 < w < INFINITE,
    ensures
        Single::whole(a as int).magnitude() < INFINITE,
        Single::whole(b as int).magnitude() < INFINITE,
        !Single::whole(a as int).negative() && !Single::whole(b as int).negative(),
        out.0 == nearest(units(Single::whole(a as int).magnitude()) * pow2(149), units(w)),
        out.1 == nearest(units(Single::whole(b as int).magnitude()) * pow2(149), units(w)),
        0 <= out.0 <= out.1 <= INFINITE,
{
    let x = lemma_whole_is_finite(a as int);
    let y = lemma_whole_is_finite(b as int);
    let p = pow2(149) as int;
    lemma_pow2_pos(149);
    assert(a * p <= b * p) by (nonlinear_arith)
        requires
            a <= b,
            p > 0,
    ;
    lemma_rounding_keeps_order(a * p, x, b * p, y, 1);
    lemma_units_increase(x, y);
    lemma_units_increase(0, w);
    assert(units(x) * p <= units(y) * p) by (nonlinear_arith)
        requires
            units(x) <= units(y),
            p > 0,
    ;
    let r = lemma_some_nearest(units(x) * p, units(w));
    let q = lemma_some_nearest(units(y) * p, units(w));
    lemma_rounding_keeps_order(units(x) * p, r, units(y) * p, q, units(w));
    (r, q)
}

/// A dearer rank of one stat is never the better buy.
proof fn lemma_dearer_is_no_better(a: u32, b: u32, weight: Single)
    requires
        a <= b,
        bid(a, weight) is Some,
    ensures
        bid(b, weight) is Some,
        !better(bid(b, weight)->0, bid(a, weight)->0),
{
    let w = weight.magnitude();
    let one = Single::whole(a as int);
    let two = Single::whole(b as int);
    if w < INFINITE {
        let (r, q) = lemma_less_over(a, b, w);
        assert(one.quotient(weight) == Single::of(false, r));
        assert(two.quotient(weight) == Single::of(false, q));
        assert(Single::of(false, r).place() == r && Single::of(false, q).place() == q);
    } else {
        lemma_whole_is_finite(a as int);
        lemma_whole_is_finite(b as int);
        assert(one.quotient(weight) == Single::of(false, 0));
        assert(two.quotient(weight) == Single::of(false, 0));
    }
}

/// The ranks of a stat get no cheaper as it goes up.
pub open spec fn rising(c: Climb) -> bool {
    forall|i: u32, j: u32|
        c.ladder.ranks <= i <= j && j + 1 < c.ladder.table@.len() ==> (
        #[trigger] c.ladder.spec_step(i))->0 <= (#[trigger] c.ladder.spec_step(j))->0
}

/// What is best by what makes it best is the best.
proof fn lemma_is_best(line: Seq<Option<Bid>>, i: int)
    requires
        0 <= i < line.len(),
        line[i] is Some,
        forall|j: int|
            0 <= j < line.len() && (#[trigger] line[j]) is Some ==> !better(
                line[j]->0,
                line[i]->0,
            ),
        forall|j: int| 0 <= j < i && (#[trigger] line[j]) is Some ==> better(line[i]->0, line[j]->0),
    ensures
        best(line, line.len()) == Some(i),
{
    lemma_best(line, line.len());
    assert(best(line, line.len()) is Some);
    let k = best(line, line.len())->0;
    if k < i {
        assert(better(line[i]->0, line[k]->0));
    } else if i < k {
        assert(better(line[k]->0, line[i]->0));
    }
}

/// Buying some of the ranks that the paper run gives a stat ahead of the others
/// changes nothing of where the run ends.
proof fn lemma_bought_ahead(field: Seq<Climb>, at: Seq<u32>, left: int, i: int, q: u32)
    requires
        all_wf(field),
        at_or_above(field, at),
        left >= 0,
        0 <= i < field.len(),
        rising(field[i]),
        at[i] <= q <= planned(field, at, left).0[i],
    ensures
        planned(
            field,
            at.update(i, q),
            left - (field[i].ladder.spec_cost_to(q)->0 - field[i].ladder.spec_cost_to(at[i])->0),
        ) == planned(field, at, left),
    decreases to_go(field, at, field.len()),
{
    let l = field[i].ladder;
    let line = next_bids(field, at);
    let (end, over) = planned(field, at, left);
    let ahead = at.update(i, q);
    let price = l.spec_cost_to(q)->0 - l.spec_cost_to(at[i])->0;
    if q == at[i] {
        assert(ahead =~= at);
        return;
    }
    lemma_best(line, line.len());
    assert(best(line, line.len()) is Some);
    let b = best(line, line.len())->0;
    let cost = line[b]->0.cost;
    assert(line[b] == next_bid(field[b], at[b]));
    assert(cost <= left);
    lemma_to_go(field, at, b, field.len());
    let next = at.update(b, (at[b] + 1) as u32);
    assert(at_or_above(field, next));
    lemma_cost_of_a_step(field[b].ladder, at[b]);
    if b == i {
        lemma_bought_ahead(field, next, left - cost, i, q);
        assert(next.update(i, q) =~= ahead);
    } else {
        lemma_bought_ahead(field, next, left - cost, i, q);
        law_a_plan_never_overspends(field, next, left - cost);
        lemma_outlay_gap(field, next, end, i, field.len());
        assert(l.wf());
        assert(l.table@[q as int] <= l.table@[end[i] as int]);
        assert(left - price >= cost);
        // The next rank of the stat bought ahead is no better a buy than the
        // one it stood before, so the best buy stays the best.
        let now = next_bids(field, ahead);
        assert forall|j: int| 0 <= j < now.len() && j != i implies (#[trigger] now[j])
            == line[j] by {}
        assert(now[i] == next_bid(field[i], q));
        assert(line[i] == next_bid(field[i], at[i]));
        if now[i] is Some {
            assert(l.spec_step(at[i])->0 <= l.spec_step(q)->0);
            lemma_cost_of_a_step(l, at[i]);
            assert(line[i] is Some);
            lemma_dearer_is_no_better(l.spec_step(at[i])->0, l.spec_step(q)->0, field[i].weight);
        }
        assert forall|j: int| 0 <= j < now.len() && (#[trigger] now[j]) is Some implies !better(
            now[j]->0,
            now[b]->0,
        ) by {
            assert(line[j] is Some);
        }
        assert forall|j: int| 0 <= j < b && (#[trigger] now[j]) is Some implies better(
            now[b]->0,
            now[j]->0,
        ) by {
            assert(line[j] is Some);
        }
        lemma_is_best(now, b);
        assert(ahead.update(b, (ahead[b] + 1) as u32) =~= next.update(i, q));
        lemma_to_go(field, ahead, b, field.len());
    }
}

/// The field once stat `i` has been bought up to rank `q`.
pub open spec fn after(field: Seq<Climb>, i: int, q: u32) -> Seq<Climb> {
    let c = field[i];
    field.update(
        i,
        Climb {
            ladder: Ladder {
                table: c.ladder.table,
                ranks: q,
                spent: c.ladder.table@[q as int],
            },
            ..c
        },
    )
}

proof fn lemma_same_plan(field: Seq<Climb>, at: Seq<u32>, left: int, i: int, q: u32)
    requires
        all_wf(field),
        at_or_above(field, at),
        0 <= i < field.len(),
        field[i].ladder.ranks < q <= at[i],
        q < field[i].ladder.table@.len(),
    ensures
        planned(after(field, i, q), at, left) == planned(field, at, left),
    decreases to_go(field, at, field.len()),
{
    let l = field[i].ladder;
    let other = after(field, i, q);
    assert(l.wf());
    assert(next_bids(other, at) =~= next_bids(field, at)) by {
        assert forall|j: int| 0 <= j < field.len() implies next_bids(other, at)[j] == next_bids(
            field,
            at,
        )[j] by {
            if j == i && at[i] + 1 < l.table@.len() {
                assert(l.table@[l.ranks + 1] <= l.table@[at[i] as int]);
                assert(l.table@[q as int] <= l.table@[at[i] as int]);
            }
        }
    }
    let line = next_bids(field, at);
    lemma_best(line, line.len());
    if let Some(b) = best(line, line.len()) {
        let cost = line[b]->0.cost;
        assert(line[b] == next_bid(field[b], at[b]));
        if cost <= left {
            lemma_to_go(field, at, b, field.len());
            lemma_to_go(other, at, b, field.len());
            let next = at.update(b, (at[b] + 1) as u32);
            assert(at_or_above(field, next));
            lemma_same_plan(field, next, left - cost, i, q);
        }
    }
}

/// Whatever part of its share a stat is bought in one message, the ranks that
/// the rest of the pool then comes to are those that the whole of it came to a
/// rank at a time.
pub proof fn law_a_message_leaves_the_plan(field: Seq<Climb>, xp: int, i: int, q: u32)
    requires
        all_wf(field),
        xp >= 0,
        0 <= i < field.len(),
        rising(field[i]),
        field[i].ladder.ranks < q <= planned(field, standing(field), xp).0[i],
    ensures
        planned(
            after(field, i, q),
            standing(after(field, i, q)),
            xp - field[i].ladder.spec_cost_to(q)->0,
        ) == planned(field, standing(field), xp),
        all_wf(after(field, i, q)),
{
    let at = standing(field);
    let l = field[i].ladder;
    assert forall|k: int| 0 <= k < field.len() implies field[k].ladder.ranks <= (
    #[trigger] at[k]) < field[k].ladder.table@.len() by {
        assert(field[k].ladder.wf());
    }
    assert(l.wf());
    assert(l.spec_cost_to(at[i])->0 == 0);
    law_a_plan_never_overspends(field, at, xp);
    assert(at[i] <= planned(field, at, xp).0[i]);
    lemma_bought_ahead(field, at, xp, i, q);
    let ahead = at.update(i, q);
    let other = after(field, i, q);
    assert(standing(other) =~= ahead);
    assert(at_or_above(field, ahead));
    lemma_same_plan(field, ahead, xp - l.spec_cost_to(q)->0, i, q);
    assert forall|k: int| 0 <= k < other.len() implies (#[trigger] other[k]).ladder.wf() by {
        assert(field[k].ladder.wf());
        if k == i && q + 1 < l.table@.len() {
            assert(l.table@[q as int] <= l.table@[q + 1]);
        }
    }
}

/// The field with other stats held back.
pub open spec fn holding<'a>(field: Seq<Climb<'a>>, held: Seq<bool>) -> Seq<Climb<'a>> {
    Seq::new(field.len(), |i: int| Climb { held: held[i], ..field[i] })
}

/// What is held back does not change what is spent on paper.
proof fn lemma_held_or_not(field: Seq<Climb>, held: Seq<bool>, at: Seq<u32>, left: int)
    requires
        field.len() == at.len(),
    ensures
        planned(holding(field, held), at, left) == planned(field, at, left),
    decreases to_go(field, at, field.len()),
{
    let other = holding(field, held);
    assert(next_bids(other, at) =~= next_bids(field, at));
    let line = next_bids(field, at);
    lemma_best(line, line.len());
    if let Some(i) = best(line, line.len()) {
        let cost = line[i]->0.cost;
        if cost <= left && at[i] + 1 < field[i].ladder.table@.len() && at[i] < u32::MAX {
            lemma_to_go(field, at, i, field.len());
            lemma_to_go(other, at, i, field.len());
            lemma_held_or_not(field, held, at.update(i, (at[i] + 1) as u32), left - cost);
        }
    }
}

/// What it takes to bring those of the first `n` stats that are in `some` to
/// `at`.
spec fn outlay_on(field: Seq<Climb>, at: Seq<u32>, some: Set<int>, n: nat) -> int
    decreases n,
{
    if n == 0 {
        0
    } else {
        outlay_on(field, at, some, (n - 1) as nat) + if some.contains(n - 1) {
            field[n - 1].ladder.spec_cost_to(at[n - 1])->0 as int
        } else {
            0
        }
    }
}

proof fn lemma_outlay_on(field: Seq<Climb>, at: Seq<u32>, some: Set<int>, i: int, n: nat)
    requires
        all_wf(field),
        at_or_above(field, at),
        n <= field.len(),
        0 <= i < field.len(),
    ensures
        0 <= outlay_on(field, at, some, n) <= outlay(field, at, n),
        !some.contains(i) ==> outlay_on(field, at, some.insert(i), n) == outlay_on(
            field,
            at,
            some,
            n,
        ) + if i < n {
            field[i].ladder.spec_cost_to(at[i])->0 as int
        } else {
            0
        },
    decreases n,
{
    if n > 0 {
        lemma_outlay_on(field, at, some, i, (n - 1) as nat);
        assert(field[n - 1].ladder.wf());
        assert(at[n - 1] < field[n - 1].ladder.table@.len());
    }
}

/// What the first `n` messages come to, the `m`th sized with the stats held
/// back that `holds[m]` says.
pub open spec fn messages_cost(field: Seq<Climb>, xp: int, holds: Seq<Seq<bool>>, n: nat) -> int
    decreases n,
{
    if n == 0 {
        0
    } else {
        let (_, batch) = batched(holding(field, holds[n - 1]), xp)->0;
        messages_cost(field, xp, holds, (n - 1) as nat) + batch.xp
    }
}

/// The stats that the first `n` messages bought.
spec fn bought_by(who: Seq<int>, n: nat) -> Set<int> {
    Set::new(|i: int| exists|m: int| 0 <= m < n && #[trigger] who[m] == i)
}

proof fn lemma_messages(field: Seq<Climb>, xp: int, holds: Seq<Seq<bool>>, who: Seq<int>, n: nat)
    requires
        all_wf(field),
        xp >= 0,
        unanswered(field, xp, holds, who),
        n <= holds.len(),
    ensures
        messages_cost(field, xp, holds, n) <= outlay_on(
            field,
            planned(field, standing(field), xp).0,
            bought_by(who, n),
            field.len(),
        ),
    decreases n,
{
    let at = standing(field);
    assert forall|i: int| 0 <= i < field.len() implies field[i].ladder.ranks <= (#[trigger] at[i])
        < field[i].ladder.table@.len() by {
        assert(field[i].ladder.wf());
    }
    law_a_plan_never_overspends(field, at, xp);
    let (to, _) = planned(field, at, xp);
    if n == 0 {
        if field.len() > 0 {
            lemma_outlay_on(field, to, bought_by(who, 0), 0, field.len());
        }
    } else {
        let m = n - 1;
        lemma_messages(field, xp, holds, who, m as nat);
        let other = holding(field, holds[m]);
        assert(standing(other) =~= at);
        lemma_held_or_not(field, holds[m], at, xp);
        assert(all_wf(other)) by {
            assert forall|i: int| 0 <= i < other.len() implies (#[trigger] other[i]).ladder.wf() by {
                assert(field[i].ladder.wf());
            }
        }
        law_a_batch_fits_the_pool(other, xp);
        let i = who[m];
        assert(bought(other, xp, i));
        let before = bought_by(who, m as nat);
        assert(!before.contains(i)) by {
            if before.contains(i) {
                let k = choose|k: int| 0 <= k < m && #[trigger] who[k] == i;
                assert(holds[m][who[k]]);
            }
        }
        assert(bought_by(who, n) =~= before.insert(i)) by {
            assert forall|x: int| bought_by(who, n).contains(x) == before.insert(i).contains(x) by {
                if before.insert(i).contains(x) {
                    if x == i {
                        assert(who[m] == x);
                    } else {
                        let k = choose|k: int| 0 <= k < m && #[trigger] who[k] == x;
                        assert(who[k] == x);
                    }
                }
            }
        }
        lemma_outlay_on(field, to, before, i, field.len());
        let l = field[i].ladder;
        assert(l.wf());
        let (_, batch) = batched(other, xp)->0;
        let top = l.ranks + batch.ranks;
        assert(l.table@[top] <= l.table@[to[i] as int]);
    }
}

/// Messages sized one after another on the same stats and the same pool, each
/// buying the stat `who` says, and none buying a stat that one before it bought:
/// those are held back until their answers come.
pub open spec fn unanswered(
    field: Seq<Climb>,
    xp: int,
    holds: Seq<Seq<bool>>,
    who: Seq<int>,
) -> bool {
    &&& who.len() == holds.len()
    &&& forall|m: int|
        0 <= m < holds.len() ==> batched(holding(field, #[trigger] holds[m]), xp) is Some && bought(
            holding(field, holds[m]),
            xp,
            who[m],
        )
    &&& forall|k: int, m: int| 0 <= k < m < holds.len() ==> #[trigger] holds[m][#[trigger] who[k]]
}

/// Messages sent while the server answers none of them come to no more than the
/// pool, whatever else is held back meanwhile.
pub proof fn law_unanswered_messages_fit_the_pool(
    field: Seq<Climb>,
    xp: int,
    holds: Seq<Seq<bool>>,
    who: Seq<int>,
)
    requires
        all_wf(field),
        xp >= 0,
        unanswered(field, xp, holds, who),
    ensures
        messages_cost(field, xp, holds, holds.len()) <= xp,
{
    let at = standing(field);
    assert forall|i: int| 0 <= i < field.len() implies field[i].ladder.ranks <= (#[trigger] at[i])
        < field[i].ladder.table@.len() by {
        assert(field[i].ladder.wf());
    }
    law_a_plan_never_overspends(field, at, xp);
    let (to, _) = planned(field, at, xp);
    lemma_outlay_standing(field, field.len());
    lemma_messages(field, xp, holds, who, holds.len());
    if field.len() > 0 {
        lemma_outlay_on(field, to, bought_by(who, holds.len()), 0, field.len());
    }
}

} // verus!
