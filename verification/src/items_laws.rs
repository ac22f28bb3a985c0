//! What holds of what is asked about the things a character carries.

use crate::clock::Moment;
use crate::items::{
    asked, lacking, looked_over, matching, next_asked, queued, to_ask, waited_for, Stowed, AT_ONCE,
};
use crate::records::ItemStats;
use vstd::prelude::*;

verus! {

/// Some answers are awaited about a thing.
pub open spec fn is_awaited(inflight: Seq<(u32, Moment)>, guid: u32) -> bool {
    exists|i: int| 0 <= i < inflight.len() && (#[trigger] inflight[i]).0 == guid
}

proof fn lemma_to_ask(
    carried: Seq<u32>,
    n: nat,
    done: Set<u32>,
    queue: Seq<u32>,
    inflight: Seq<(u32, Moment)>,
)
    requires
        n <= carried.len(),
    ensures
        to_ask(carried, n, done, queue, inflight) == carried.take(n as int).filter(
            |g: u32| !done.contains(g) && !queue.contains(g) && !is_awaited(inflight, g),
        ),
    decreases n,
{
    reveal(Seq::filter);
    let p = |g: u32| !done.contains(g) && !queue.contains(g) && !is_awaited(inflight, g);
    let all = carried.take(n as int);
    if n > 0 {
        lemma_to_ask(carried, (n - 1) as nat, done, queue, inflight);
        assert(all.drop_last() =~= carried.take(n - 1));
        assert(all.last() == carried[n - 1]);
        assert(asked(inflight, carried[n - 1]) == is_awaited(inflight, carried[n - 1]));
    }
    assert(to_ask(carried, n, done, queue, inflight) =~= all.filter(p));
}

/// To have everything appraised, everything carried is asked about that was not
/// appraised, does not wait its turn and is not asked about already.
pub proof fn law_everything_unknown_is_asked_about(
    carried: Seq<u32>,
    done: Set<u32>,
    queue: Seq<u32>,
    inflight: Seq<(u32, Moment)>,
)
    ensures
        to_ask(carried, carried.len(), done, queue, inflight) == carried.filter(
            |g: u32| !done.contains(g) && !queue.contains(g) && !is_awaited(inflight, g),
        ),
{
    lemma_to_ask(carried, carried.len(), done, queue, inflight);
    assert(carried.take(carried.len() as int) =~= carried);
}

proof fn lemma_queued(
    guids: Seq<u32>,
    n: nat,
    known: Set<u32>,
    done: Set<u32>,
    queue: Seq<u32>,
    inflight: Seq<(u32, Moment)>,
    g: u32,
)
    requires
        n <= guids.len(),
    ensures
        ({
            let after = queued(guids, n, known, done, queue, inflight);
            &&& after.contains(g) <==> queue.contains(g) || (guids.take(n as int).contains(g)
                && known.contains(g) && !done.contains(g) && !is_awaited(inflight, g))
            &&& after.len() >= queue.len()
            &&& after.take(queue.len() as int) == queue
        }),
    decreases n,
{
    let after = queued(guids, n, known, done, queue, inflight);
    if n == 0 {
        assert(after.take(queue.len() as int) =~= queue);
    } else {
        lemma_queued(guids, (n - 1) as nat, known, done, queue, inflight, g);
        let before = queued(guids, (n - 1) as nat, known, done, queue, inflight);
        let x = guids[n - 1];
        let some = guids.take(n as int);
        let less = guids.take(n - 1);
        assert(asked(inflight, x) == is_awaited(inflight, x));
        assert(some.contains(g) <==> less.contains(g) || g == x) by {
            if less.contains(g) {
                let i = choose|i: int| 0 <= i < less.len() && less[i] == g;
                assert(some[i] == g);
            }
            if g == x {
                assert(some[n - 1] == g);
            }
            if some.contains(g) && g != x {
                let i = choose|i: int| 0 <= i < some.len() && some[i] == g;
                assert(less[i] == g);
            }
        }
        if after != before {
            assert(after == before.push(x));
            assert(after.contains(g) <==> before.contains(g) || g == x) by {
                if before.contains(g) {
                    let i = choose|i: int| 0 <= i < before.len() && before[i] == g;
                    assert(after[i] == g);
                }
                if g == x {
                    assert(after[before.len() as int] == g);
                }
                if after.contains(g) && g != x {
                    let i = choose|i: int| 0 <= i < after.len() && after[i] == g;
                    assert(before[i] == g);
                }
            }
            assert(after.take(queue.len() as int) =~= before.take(queue.len() as int));
        }
    }
}

/// What is named to be appraised waits behind what waits already: everything named
/// that is known, was not appraised and is not asked about, and nothing else.
pub proof fn law_what_is_named_waits_its_turn(
    guids: Seq<u32>,
    known: Set<u32>,
    done: Set<u32>,
    queue: Seq<u32>,
    inflight: Seq<(u32, Moment)>,
    g: u32,
)
    ensures
        ({
            let after = queued(guids, guids.len(), known, done, queue, inflight);
            &&& after.contains(g) <==> queue.contains(g) || (guids.contains(g) && known.contains(g)
                && !done.contains(g) && !is_awaited(inflight, g))
            &&& after.len() >= queue.len()
            &&& after.take(queue.len() as int) == queue
        }),
{
    lemma_queued(guids, guids.len(), known, done, queue, inflight, g);
    assert(guids.take(guids.len() as int) =~= guids);
}

proof fn lemma_waited(inflight: Seq<(u32, Moment)>, n: nat, done: Set<u32>, now: Moment)
    requires
        n <= inflight.len(),
    ensures
        waited_for(inflight, n, done, now) == inflight.take(n as int).filter(
            |a: (u32, Moment)| !done.contains(a.0) && now <= a.1 + 2_000_000_000,
        ),
    decreases n,
{
    reveal(Seq::filter);
    let p = |a: (u32, Moment)| !done.contains(a.0) && now <= a.1 + 2_000_000_000;
    let all = inflight.take(n as int);
    if n > 0 {
        lemma_waited(inflight, (n - 1) as nat, done, now);
        assert(all.drop_last() =~= inflight.take(n - 1));
        assert(all.last() == inflight[n - 1]);
    }
    assert(waited_for(inflight, n, done, now) =~= all.filter(p));
}

/// An answer is waited for until it comes or two seconds have gone by.
pub proof fn law_an_answer_is_waited_for(inflight: Seq<(u32, Moment)>, done: Set<u32>, now: Moment)
    ensures
        waited_for(inflight, inflight.len(), done, now) == inflight.filter(
            |a: (u32, Moment)| !done.contains(a.0) && now <= a.1 + 2_000_000_000,
        ),
{
    lemma_waited(inflight, inflight.len(), done, now);
    assert(inflight.take(inflight.len() as int) =~= inflight);
}

proof fn lemma_filter_first(s: Seq<u32>, p: spec_fn(u32) -> bool)
    requires
        s.len() > 0,
    ensures
        s.filter(p) == if p(s[0]) {
            seq![s[0]] + s.skip(1).filter(p)
        } else {
            s.skip(1).filter(p)
        },
    decreases s.len(),
{
    reveal(Seq::filter);
    if s.len() == 1 {
        assert(s.skip(1) =~= Seq::<u32>::empty());
        assert(s.drop_last() =~= Seq::<u32>::empty());
        assert(s.filter(p) =~= if p(s[0]) {
            seq![s[0]] + s.skip(1).filter(p)
        } else {
            s.skip(1).filter(p)
        });
    } else {
        let t = s.drop_last();
        lemma_filter_first(t, p);
        assert(t.skip(1) =~= s.skip(1).drop_last());
        assert(s.skip(1).last() == s.last());
        assert(s.filter(p) =~= if p(s[0]) {
            seq![s[0]] + s.skip(1).filter(p)
        } else {
            s.skip(1).filter(p)
        });
    }
}

proof fn lemma_next(queue: Seq<u32>, i: int, room: int, known: Set<u32>, done: Set<u32>)
    requires
        0 <= i <= queue.len(),
    ensures
        ({
            let (ask, end) = next_asked(queue, i, room, known, done);
            let p = |g: u32| known.contains(g) && !done.contains(g);
            &&& i <= end <= queue.len()
            &&& ask == queue.subrange(i, end).filter(p)
            &&& room > 0 ==> ask.len() <= room
            &&& room <= 0 ==> ask.len() == 0
            &&& room > 0 && ask.len() < room ==> end == queue.len()
        }),
    decreases queue.len() - i,
{
    reveal(Seq::filter);
    let p = |g: u32| known.contains(g) && !done.contains(g);
    let (ask, end) = next_asked(queue, i, room, known, done);
    if room <= 0 || i >= queue.len() {
        assert(queue.subrange(i, end) =~= Seq::<u32>::empty());
        assert(ask =~= queue.subrange(i, end).filter(p));
    } else {
        let less = if p(queue[i]) {
            room - 1
        } else {
            room
        };
        lemma_next(queue, i + 1, less, known, done);
        let some = queue.subrange(i, end);
        lemma_filter_first(some, p);
        assert(some.skip(1) =~= queue.subrange(i + 1, end));
    }
}

/// Eight answers are awaited at once, no more: as many as then have room are asked
/// about, from the front, what is known and was not appraised; what is neither is
/// dropped; and with room to spare nothing is left waiting.
pub proof fn law_eight_are_asked_about_at_once(
    queue: Seq<u32>,
    still: nat,
    known: Set<u32>,
    done: Set<u32>,
)
    ensures
        ({
            let (ask, end) = next_asked(queue, 0, AT_ONCE - still, known, done);
            &&& 0 <= end <= queue.len()
            &&& ask == queue.take(end).filter(|g: u32| known.contains(g) && !done.contains(g))
            &&& still >= 8 ==> ask.len() == 0
            &&& still < 8 ==> still + ask.len() <= 8
            &&& still + ask.len() < 8 ==> end == queue.len()
        }),
{
    lemma_next(queue, 0, AT_ONCE - still, known, done);
    let end = next_asked(queue, 0, AT_ONCE - still, known, done).1;
    assert(queue.subrange(0, end) =~= queue.take(end));
}

proof fn lemma_lacking(carried: Seq<u32>, n: nat, done: Set<u32>)
    requires
        n <= carried.len(),
    ensures
        lacking(carried, n, done) == carried.take(n as int).filter(
            |g: u32| !done.contains(g),
        ).len(),
    decreases n,
{
    reveal(Seq::filter);
    let all = carried.take(n as int);
    if n > 0 {
        lemma_lacking(carried, (n - 1) as nat, done);
        assert(all.drop_last() =~= carried.take(n - 1));
        assert(all.last() == carried[n - 1]);
    }
}

/// What is yet unappraised is everything carried that was not.
pub proof fn law_everything_unappraised_is_counted(carried: Seq<u32>, done: Set<u32>)
    ensures
        lacking(carried, carried.len(), done) == carried.filter(
            |g: u32| !done.contains(g),
        ).len(),
{
    lemma_lacking(carried, carried.len(), done);
    assert(carried.take(carried.len() as int) =~= carried);
}

proof fn lemma_looked_over(packs: Seq<Stowed>, n: nat, done: Set<u32>)
    requires
        n <= packs.len(),
    ensures
        looked_over(packs, n, done) == packs.take(n as int).filter(
            |t: Stowed| t.value > 0 && !t.wielded && !done.contains(t.guid),
        ).map_values(|t: Stowed| t.guid),
    decreases n,
{
    reveal(Seq::filter);
    let p = |t: Stowed| t.value > 0 && !t.wielded && !done.contains(t.guid);
    let f = |t: Stowed| t.guid;
    let all = packs.take(n as int);
    if n > 0 {
        lemma_looked_over(packs, (n - 1) as nat, done);
        assert(all.drop_last() =~= packs.take(n - 1));
        assert(all.last() == packs[n - 1]);
    }
    assert(looked_over(packs, n, done) =~= all.filter(p).map_values(f));
}

/// What is looked over before a sale is everything in the packs that is worth
/// anything, is not wielded and was not appraised.
pub proof fn law_what_is_looked_over_before_a_sale(packs: Seq<Stowed>, done: Set<u32>)
    ensures
        looked_over(packs, packs.len(), done) == packs.filter(
            |t: Stowed| t.value > 0 && !t.wielded && !done.contains(t.guid),
        ).map_values(|t: Stowed| t.guid),
{
    lemma_looked_over(packs, packs.len(), done);
    assert(packs.take(packs.len() as int) =~= packs);
}

/// What is found among some things is what answers: everything found answers and is
/// one of them, and everything that is not found does not.
pub proof fn law_everything_that_answers_is_found<F: Fn(&ItemStats) -> bool>(
    items: Seq<ItemStats>,
    matches: F,
    r: Seq<ItemStats>,
    k: int,
)
    requires
        matching(items, matches, r),
        0 <= k < items.len(),
    ensures
        matches.ensures((&items[k],), false) || (matches.ensures((&items[k],), true) && r.contains(
            items[k],
        )),
    decreases items.len(),
{
    let rest = items.skip(1);
    if r.len() > 0 && r[0] == items[0] && matches.ensures((&items[0],), true) && matching(
        rest,
        matches,
        r.skip(1),
    ) {
        if k > 0 {
            law_everything_that_answers_is_found(rest, matches, r.skip(1), k - 1);
            assert(rest[k - 1] == items[k]);
            if r.skip(1).contains(items[k]) {
                let i = choose|i: int| 0 <= i < r.skip(1).len() && r.skip(1)[i] == items[k];
                assert(r[i + 1] == items[k]);
            }
        } else {
            assert(r.contains(items[0]));
        }
    } else if k > 0 {
        law_everything_that_answers_is_found(rest, matches, r, k - 1);
        assert(rest[k - 1] == items[k]);
    }
}

/// And nothing is found that does not.
pub proof fn law_nothing_else_is_found<F: Fn(&ItemStats) -> bool>(
    items: Seq<ItemStats>,
    matches: F,
    r: Seq<ItemStats>,
    k: int,
)
    requires
        matching(items, matches, r),
        0 <= k < r.len(),
    ensures
        matches.ensures((&r[k],), true),
        items.contains(r[k]),
    decreases items.len(),
{
    if items.len() > 0 {
        let rest = items.skip(1);
        if r[0] == items[0] && matches.ensures((&items[0],), true) && matching(
            rest,
            matches,
            r.skip(1),
        ) {
            if k > 0 {
                law_nothing_else_is_found(rest, matches, r.skip(1), k - 1);
                assert(r.skip(1)[k - 1] == r[k]);
                let i = choose|i: int| 0 <= i < rest.len() && rest[i] == r[k];
                assert(items[i + 1] == r[k]);
            } else {
                assert(items[0] == r[0]);
            }
        } else {
            law_nothing_else_is_found(rest, matches, r, k);
            let i = choose|i: int| 0 <= i < rest.len() && rest[i] == r[k];
            assert(items[i + 1] == r[k]);
        }
    }
}

} // verus!
