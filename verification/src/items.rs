//! Asking the server what things are.

use crate::clock::{since, spec_since, Moment, Span, SECOND};
use crate::records::ItemStats;
use crate::text::{cat2, count, counted};
use std::collections::{HashSet, VecDeque};
use vstd::prelude::*;
use vstd::string::*;

verus! {

broadcast use vstd::std_specs::hash::group_hash_axioms;

/// How many appraisals may be waiting on the server at once.
pub const AT_ONCE: usize = 8;

/// How long an unanswered appraisal is waited on before its place is given to
/// another.
pub const APPRAISAL_LOST: Span = 2 * SECOND;

/// What is waiting to be appraised, and what was asked for and is not answered.
///
/// Several at once: the server answers each on its own, and a body of eight
/// things asked one at a time is eight round trips of standing over it.
#[derive(Clone, Debug)]
pub struct Appraising {
    pub queue: VecDeque<u32>,
    pub inflight: Vec<(u32, Moment)>,
}

/// Something was asked for and is not answered.
pub open spec fn asked(inflight: Seq<(u32, Moment)>, guid: u32) -> bool {
    exists|i: int| 0 <= i < inflight.len() && (#[trigger] inflight[i]).0 == guid
}

/// The first `n` things that are neither appraised, queued nor asked for, as it
/// stands before any of them is queued.
pub open spec fn to_ask(
    carried: Seq<u32>,
    n: nat,
    done: Set<u32>,
    queue: Seq<u32>,
    inflight: Seq<(u32, Moment)>,
) -> Seq<u32>
    decreases n,
{
    if n == 0 {
        seq![]
    } else {
        let rest = to_ask(carried, (n - 1) as nat, done, queue, inflight);
        let g = carried[n - 1];
        if !done.contains(g) && !queue.contains(g) && !asked(inflight, g) {
            rest.push(g)
        } else {
            rest
        }
    }
}

/// The queue once the first `n` things have been offered one after another: each
/// that the world holds and that is neither appraised, queued nor asked for goes
/// behind the rest.
pub open spec fn queued(
    guids: Seq<u32>,
    n: nat,
    known: Set<u32>,
    done: Set<u32>,
    queue: Seq<u32>,
    inflight: Seq<(u32, Moment)>,
) -> Seq<u32>
    decreases n,
{
    if n == 0 {
        queue
    } else {
        let so_far = queued(guids, (n - 1) as nat, known, done, queue, inflight);
        let g = guids[n - 1];
        if known.contains(g) && !done.contains(g) && !so_far.contains(g) && !asked(inflight, g) {
            so_far.push(g)
        } else {
            so_far
        }
    }
}

/// What is still waited for, of the first `n` asked for: what is not answered
/// and not so long gone as to be lost.
pub open spec fn waited_for(
    inflight: Seq<(u32, Moment)>,
    n: nat,
    done: Set<u32>,
    now: Moment,
) -> Seq<(u32, Moment)>
    decreases n,
{
    if n == 0 {
        seq![]
    } else {
        let rest = waited_for(inflight, (n - 1) as nat, done, now);
        let (g, at) = inflight[n - 1];
        if !done.contains(g) && spec_since(now, at) <= APPRAISAL_LOST {
            rest.push((g, at))
        } else {
            rest
        }
    }
}

/// What is asked for next, from `i` in the queue on, with room for `room` more:
/// what is asked, and how far down the queue that goes. What is appraised
/// already, or gone, is passed over.
pub open spec fn next_asked(
    queue: Seq<u32>,
    i: int,
    room: int,
    known: Set<u32>,
    done: Set<u32>,
) -> (Seq<u32>, int)
    decreases queue.len() - i,
{
    if room <= 0 || i >= queue.len() || i < 0 {
        (seq![], i)
    } else if done.contains(queue[i]) || !known.contains(queue[i]) {
        next_asked(queue, i + 1, room, known, done)
    } else {
        let (rest, end) = next_asked(queue, i + 1, room - 1, known, done);
        (seq![queue[i]] + rest, end)
    }
}

/// What was asked for, all at one moment.
pub open spec fn at_moment(guids: Seq<u32>, now: Moment) -> Seq<(u32, Moment)> {
    guids.map_values(|g: u32| (g, now))
}

fn is_asked(inflight: &Vec<(u32, Moment)>, guid: u32) -> (r: bool)
    ensures
        r == asked(inflight@, guid),
{
    let mut i: usize = 0;
    while i < inflight.len()
        invariant
            i <= inflight.len(),
            forall|k: int| 0 <= k < i ==> (#[trigger] inflight@[k]).0 != guid,
        decreases inflight.len() - i,
    {
        if inflight[i].0 == guid {
            assert(inflight@[i as int].0 == guid);
            return true;
        }
        i = i + 1;
    }
    false
}

fn holds(queue: &VecDeque<u32>, guid: u32) -> (r: bool)
    ensures
        r == queue@.contains(guid),
{
    let mut i: usize = 0;
    while i < queue.len()
        invariant
            i <= queue.len(),
            forall|k: int| 0 <= k < i ==> #[trigger] queue@[k] != guid,
        decreases queue.len() - i,
    {
        if queue[i] == guid {
            assert(queue@[i as int] == guid);
            return true;
        }
        i = i + 1;
    }
    false
}

/// How many of the first `n` things lack an appraisal.
pub open spec fn lacking(carried: Seq<u32>, n: nat, done: Set<u32>) -> nat
    decreases n,
{
    if n == 0 {
        0
    } else {
        lacking(carried, (n - 1) as nat, done) + if done.contains(carried[n - 1]) {
            0nat
        } else {
            1nat
        }
    }
}

/// How many carried and worn things still lack an appraisal.
pub fn unappraised_count(carried: &[u32], appraised: &HashSet<u32>) -> (r: usize)
    ensures
        r == lacking(carried@, carried@.len(), appraised@),
{
    let mut n: usize = 0;
    let mut i: usize = 0;
    while i < carried.len()
        invariant
            i <= carried.len(),
            n <= i,
            n == lacking(carried@, i as nat, appraised@),
        decreases carried.len() - i,
    {
        if !appraised.contains(&carried[i]) {
            n = n + 1;
        }
        i = i + 1;
    }
    n
}

impl Appraising {
    /// Nothing waits, nothing is asked for.
    pub fn new() -> (r: Appraising)
        ensures
            r.queue@ == Seq::<u32>::empty(),
            r.inflight@ == Seq::<(u32, Moment)>::empty(),
    {
        Appraising { queue: VecDeque::new(), inflight: Vec::new() }
    }

    /// Queue every carried and worn thing that is not appraised, queued or asked
    /// for. Returns how many were queued.
    pub fn appraise_all(&mut self, carried: &[u32], appraised: &HashSet<u32>) -> (r: usize)
        ensures
            ({
                let todo = to_ask(
                    carried@,
                    carried@.len(),
                    appraised@,
                    old(self).queue@,
                    old(self).inflight@,
                );
                &&& final(self).queue@ == old(self).queue@ + todo
                &&& r == todo.len()
            }),
            final(self).inflight@ == old(self).inflight@,
    {
        let mut todo: VecDeque<u32> = VecDeque::new();
        let mut i: usize = 0;
        while i < carried.len()
            invariant
                i <= carried.len(),
                *self == *old(self),
                todo@ == to_ask(carried@, i as nat, appraised@, self.queue@, self.inflight@),
            decreases carried.len() - i,
        {
            let g: u32 = carried[i];
            if !appraised.contains(&g) && !holds(&self.queue, g) && !is_asked(&self.inflight, g) {
                todo.push_back(g);
            }
            i = i + 1;
        }
        let n: usize = todo.len();
        self.queue.append(&mut todo);
        n
    }

    /// Queue the given things that the world holds and that are not appraised,
    /// queued or asked for: the items of an open body, an offer, anything in the
    /// world. What the world does not hold (a vendor's stock lines) is skipped.
    /// Returns how many were queued.
    pub fn appraise_many(
        &mut self,
        guids: &[u32],
        known: &HashSet<u32>,
        appraised: &HashSet<u32>,
    ) -> (r: usize)
        ensures
            final(self).queue@ == queued(
                guids@,
                guids@.len(),
                known@,
                appraised@,
                old(self).queue@,
                old(self).inflight@,
            ),
            final(self).inflight@ == old(self).inflight@,
            r == final(self).queue@.len() - old(self).queue@.len(),
    {
        let mut n: usize = 0;
        let mut i: usize = 0;
        while i < guids.len()
            invariant
                i <= guids.len(),
                n <= i,
                self.inflight@ == old(self).inflight@,
                self.queue@ == queued(
                    guids@,
                    i as nat,
                    known@,
                    appraised@,
                    old(self).queue@,
                    old(self).inflight@,
                ),
                n == self.queue@.len() - old(self).queue@.len(),
            decreases guids.len() - i,
        {
            let g: u32 = guids[i];
            let pending = appraised.contains(&g) || holds(&self.queue, g) || is_asked(
                &self.inflight,
                g,
            );
            if known.contains(&g) && !pending {
                self.queue.push_back(g);
                n = n + 1;
            }
            i = i + 1;
        }
        n
    }

    /// Ask for the next of what is queued, as far as there is room among what is
    /// asked for once what was answered or lost has left it. Returns what is to
    /// be asked of the server now.
    pub fn tick_appraise(&mut self, known: &HashSet<u32>, appraised: &HashSet<u32>, now: Moment) -> (r:
        Vec<u32>)
        ensures
            ({
                let still = waited_for(
                    old(self).inflight@,
                    old(self).inflight@.len(),
                    appraised@,
                    now,
                );
                let (ask, end) = next_asked(
                    old(self).queue@,
                    0,
                    AT_ONCE - still.len(),
                    known@,
                    appraised@,
                );
                &&& r@ == ask
                &&& final(self).queue@ == old(self).queue@.skip(end)
                &&& final(self).inflight@ == still + at_moment(ask, now)
            }),
    {
        let mut still: Vec<(u32, Moment)> = Vec::new();
        let mut i: usize = 0;
        while i < self.inflight.len()
            invariant
                i <= self.inflight.len(),
                *self == *old(self),
                still@ == waited_for(self.inflight@, i as nat, appraised@, now),
            decreases self.inflight.len() - i,
        {
            let (g, at) = self.inflight[i];
            if !appraised.contains(&g) && since(now, at) <= APPRAISAL_LOST {
                still.push((g, at));
            }
            i = i + 1;
        }
        let ghost waited = still@;
        let ghost queue = self.queue@;
        let ghost all = next_asked(queue, 0, AT_ONCE - waited.len(), known@, appraised@);
        let mut ask: Vec<u32> = Vec::new();
        let ghost mut end: int = 0;
        assert(queue.skip(0) =~= queue);
        assert(at_moment(ask@, now) =~= seq![]);
        assert(waited + at_moment(ask@, now) =~= waited);
        while still.len() < AT_ONCE && self.queue.len() > 0
            invariant
                0 <= end <= queue.len(),
                self.queue@ == queue.skip(end),
                all == next_asked(queue, 0, AT_ONCE - waited.len(), known@, appraised@),
                still@ == waited + at_moment(ask@, now),
                ({
                    let (rest, last) = next_asked(
                        queue,
                        end,
                        AT_ONCE - still.len(),
                        known@,
                        appraised@,
                    );
                    all == (ask@ + rest, last)
                }),
            decreases self.queue.len(),
        {
            let guid: u32 = match self.queue.pop_front() {
                Some(g) => g,
                None => 0,
            };
            assert(guid == queue[end]);
            assert(self.queue@ =~= queue.skip(end + 1));
            let ghost (rest, last) = next_asked(
                queue,
                end,
                AT_ONCE - still.len(),
                known@,
                appraised@,
            );
            if !appraised.contains(&guid) && known.contains(&guid) {
                let ghost before = ask@;
                ask.push(guid);
                still.push((guid, now));
                proof {
                    assert(at_moment(ask@, now) =~= at_moment(before, now).push((guid, now)));
                    assert(still@ =~= waited + at_moment(ask@, now));
                    let (more, _) = next_asked(
                        queue,
                        end + 1,
                        AT_ONCE - still.len(),
                        known@,
                        appraised@,
                    );
                    assert(before + rest =~= ask@ + more);
                }
            }
            proof {
                end = end + 1;
            }
        }
        assert(all.0 =~= ask@);
        self.inflight = still;
        ask
    }
}

/// Never more is asked for at once than the server is to be burdened with,
/// unless more was asked for before.
pub proof fn law_appraisals_come_a_few_at_a_time(
    queue: Seq<u32>,
    i: int,
    room: int,
    known: Set<u32>,
    done: Set<u32>,
)
    requires
        0 <= i <= queue.len(),
    ensures
        next_asked(queue, i, room, known, done).0.len() <= if room > 0 {
            room
        } else {
            0
        },
        i <= next_asked(queue, i, room, known, done).1 <= queue.len(),
        forall|k: int|
            0 <= k < next_asked(queue, i, room, known, done).0.len() ==> known.contains(
                #[trigger] next_asked(queue, i, room, known, done).0[k],
            ) && !done.contains(next_asked(queue, i, room, known, done).0[k]),
    decreases queue.len() - i,
{
    if room > 0 && i < queue.len() {
        if done.contains(queue[i]) || !known.contains(queue[i]) {
            law_appraisals_come_a_few_at_a_time(queue, i + 1, room, known, done);
        } else {
            law_appraisals_come_a_few_at_a_time(queue, i + 1, room - 1, known, done);
            let (rest, _) = next_asked(queue, i + 1, room - 1, known, done);
            let (all, _) = next_asked(queue, i, room, known, done);
            assert forall|k: int| 0 <= k < all.len() implies known.contains(#[trigger] all[k])
                && !done.contains(all[k]) by {
                if k > 0 {
                    assert(all[k] == rest[k - 1]);
                }
            }
        }
    }
}

/// Nothing is queued twice, nor while it is asked for, nor once it is appraised,
/// however often it is offered.
pub proof fn law_nothing_is_queued_twice(
    guids: Seq<u32>,
    n: nat,
    known: Set<u32>,
    done: Set<u32>,
    queue: Seq<u32>,
    inflight: Seq<(u32, Moment)>,
)
    requires
        n <= guids.len(),
        queue.no_duplicates(),
        forall|k: int|
            0 <= k < queue.len() ==> !asked(inflight, #[trigger] queue[k]) && !done.contains(
                queue[k],
            ),
    ensures
        ({
            let after = queued(guids, n, known, done, queue, inflight);
            &&& after.no_duplicates()
            &&& queue.is_prefix_of(after)
            &&& forall|k: int|
                0 <= k < after.len() ==> !asked(inflight, #[trigger] after[k]) && !done.contains(
                    after[k],
                )
        }),
    decreases n,
{
    if n > 0 {
        law_nothing_is_queued_twice(guids, (n - 1) as nat, known, done, queue, inflight);
        let before = queued(guids, (n - 1) as nat, known, done, queue, inflight);
        let after = queued(guids, n, known, done, queue, inflight);
        if after != before {
            assert(after == before.push(guids[n - 1]));
            assert forall|i: int, j: int|
                0 <= i < after.len() && 0 <= j < after.len() && i != j implies after[i]
                != after[j] by {
                if i == before.len() {
                    assert(before[j] == after[j]);
                } else if j == before.len() {
                    assert(before[i] == after[i]);
                }
            }
            assert forall|k: int| 0 <= k < after.len() implies !asked(inflight, #[trigger] after[k])
                && !done.contains(after[k]) by {
                if k < before.len() {
                    assert(after[k] == before[k]);
                }
            }
            assert(queue =~= after.subrange(0, queue.len() as int)) by {
                assert(queue == before.subrange(0, queue.len() as int));
            }
        }
    }
}

/// Something in the packs, as a counter's appraising looks at it.
#[derive(Clone, Copy, Debug, PartialEq, Eq, Structural)]
pub struct Stowed {
    pub guid: u32,
    pub value: u32,
    /// It is in use all the same: worn or held.
    pub wielded: bool,
}

/// Something that might be sold, and is not appraised.
pub open spec fn unread(t: Stowed, done: Set<u32>) -> bool {
    t.value > 0 && !done.contains(t.guid)
}

/// The first `n` things in the packs that are to be appraised before any is
/// sold: those that are worth anything, are not in use and are not appraised.
pub open spec fn looked_over(packs: Seq<Stowed>, n: nat, done: Set<u32>) -> Seq<u32>
    decreases n,
{
    if n == 0 {
        seq![]
    } else {
        let rest = looked_over(packs, (n - 1) as nat, done);
        if unread(packs[n - 1], done) && !packs[n - 1].wielded {
            rest.push(packs[n - 1].guid)
        } else {
            rest
        }
    }
}

/// What might be sold and has to be appraised first, so that it can be judged.
pub fn to_look_over(packs: &[Stowed], appraised: &HashSet<u32>) -> (r: Vec<u32>)
    ensures
        r@ == looked_over(packs@, packs@.len(), appraised@),
{
    let mut r: Vec<u32> = Vec::new();
    let mut i: usize = 0;
    while i < packs.len()
        invariant
            i <= packs.len(),
            r@ == looked_over(packs@, i as nat, appraised@),
        decreases packs.len() - i,
    {
        let t = packs[i];
        if t.value > 0 && !appraised.contains(&t.guid) && !t.wielded {
            r.push(t.guid);
        }
        i = i + 1;
    }
    r
}

/// Whether something in the packs that is worth anything is still not appraised.
pub fn any_unread(packs: &[Stowed], appraised: &HashSet<u32>) -> (r: bool)
    ensures
        r == exists|i: int| 0 <= i < packs@.len() && unread(#[trigger] packs@[i], appraised@),
{
    let mut i: usize = 0;
    while i < packs.len()
        invariant
            i <= packs.len(),
            forall|k: int| 0 <= k < i ==> !unread(#[trigger] packs@[k], appraised@),
        decreases packs.len() - i,
    {
        if packs[i].value > 0 && !appraised.contains(&packs[i].guid) {
            assert(unread(packs@[i as int], appraised@));
            return true;
        }
        i = i + 1;
    }
    false
}

/// What a skill is called: as the table has it, or by its number.
pub fn skill_name(in_table: Option<String>, id: u32) -> (r: String)
    ensures
        match in_table {
            Some(name) => r == name,
            None => r@ == "skill "@ + counted(id as nat),
        },
{
    match in_table {
        Some(name) => name,
        None => {
            let n = count(id as u128);
            cat2("skill ", n.as_str())
        },
    }
}

/// What a spell is called: as the table has it, as it was learnt from a scroll,
/// or by its number.
pub fn spell_name(in_table: Option<String>, learnt: Option<String>, id: u32) -> (r: String)
    ensures
        match (in_table, learnt) {
            (Some(name), _) => r == name,
            (None, Some(name)) => r == name,
            (None, None) => r@ == "spell "@ + counted(id as nat),
        },
{
    match in_table {
        Some(name) => name,
        None => match learnt {
            Some(name) => name,
            None => {
                let n = count(id as u128);
                cat2("spell ", n.as_str())
            },
        },
    }
}

/// What is seen of a thing without asking: its description, and the spell of its
/// own (a scroll's, a wand's), 0 for none.
#[derive(Clone, Debug)]
pub struct Seen {
    pub stats: ItemStats,
    pub own_spell: u32,
}

/// Where a thing is seen: in the world, or else on the shelf of the open counter.
pub open spec fn seen_at(in_world: Option<Seen>, on_shelf: Option<Seen>) -> Option<Seen> {
    match in_world {
        Some(seen) => Some(seen),
        None => on_shelf,
    }
}

/// The stats of anything known: something carried, in an open body, on a
/// vendor's shelf, on the ground or offered in a trade. As `appraised` says,
/// where the server has answered; before that its own spell, called
/// `spell`, still shows. `None` for what is seen nowhere.
pub fn stats_of(
    in_world: Option<Seen>,
    on_shelf: Option<Seen>,
    appraised: Option<ItemStats>,
    spell: String,
) -> (r: Option<ItemStats>)
    ensures
        match (seen_at(in_world, on_shelf), appraised) {
            (None, _) => r is None,
            (Some(_), Some(a)) => r == Some(a),
            (Some(seen), None) => {
                &&& r is Some
                &&& r->0 == (ItemStats { spells: r->0.spells, ..seen.stats })
                &&& r->0.spells@ == if seen.own_spell != 0 {
                    seen.stats.spells@.push(spell)
                } else {
                    seen.stats.spells@
                }
            },
        },
        r is Some <==> in_world is Some || on_shelf is Some,
        r is Some && appraised is Some ==> r == appraised,
{
    let seen = match in_world {
        Some(seen) => seen,
        None => match on_shelf {
            Some(seen) => seen,
            None => return None,
        },
    };
    match appraised {
        Some(a) => Some(a),
        None => {
            let mut stats = seen.stats;
            if seen.own_spell != 0 {
                stats.spells.push(spell);
            }
            Some(stats)
        },
    }
}

/// Every carried and worn item, each as it is seen and, where the server has
/// answered, as it is appraised: the appraised stats where there are any, and the
/// seen ones as they are where there are none.
pub fn item_stats(carried: Vec<(ItemStats, Option<ItemStats>)>) -> (r: Vec<ItemStats>)
    ensures
        r@.len() == carried@.len(),
        forall|i: int|
            0 <= i < carried@.len() ==> #[trigger] r@[i] == match carried@[i].1 {
                Some(a) => a,
                None => carried@[i].0,
            },
{
    let mut rest = carried;
    let ghost all = rest@;
    let ghost n = all.len() as int;
    // Taken from behind, so the row is turned round at the end.
    let mut back: Vec<ItemStats> = Vec::new();
    while rest.len() > 0
        invariant
            n == all.len(),
            rest.len() + back.len() == n,
            rest@ == all.take(rest.len() as int),
            forall|k: int|
                0 <= k < back.len() ==> #[trigger] back@[k] == match all[n - 1 - k].1 {
                    Some(a) => a,
                    None => all[n - 1 - k].0,
                },
        decreases rest.len(),
    {
        let ghost m = rest.len() as int;
        let (seen, appraised) = rest.pop().unwrap();
        assert(rest@ =~= all.take(m - 1));
        assert((seen, appraised) == all[m - 1]);
        back.push(
            match appraised {
                Some(a) => a,
                None => seen,
            },
        );
    }
    let ghost whole = back@;
    let mut r: Vec<ItemStats> = Vec::new();
    while back.len() > 0
        invariant
            back.len() + r.len() == n,
            whole.len() == n,
            back@ == whole.take(back.len() as int),
            forall|k: int| 0 <= k < r.len() ==> #[trigger] r@[k] == whole[n - 1 - k],
        decreases back.len(),
    {
        let ghost m = back.len() as int;
        let s = back.pop().unwrap();
        assert(back@ =~= whole.take(m - 1));
        r.push(s);
    }
    r
}

/// The items that match, of some in order.
pub open spec fn matching<F: Fn(&ItemStats) -> bool>(
    items: Seq<ItemStats>,
    matches: F,
    r: Seq<ItemStats>,
) -> bool
    decreases items.len(),
{
    if items.len() == 0 {
        r.len() == 0
    } else {
        let first = items[0];
        ||| r.len() > 0 && r[0] == first && matches.ensures((&first,), true) && matching(
            items.skip(1),
            matches,
            r.skip(1),
        )
        ||| matches.ensures((&first,), false) && matching(items.skip(1), matches, r)
    }
}

/// The items that match, in the order they are in.
pub fn find_items<F: Fn(&ItemStats) -> bool>(items: Vec<ItemStats>, matches: F) -> (r: Vec<
    ItemStats,
>)
    requires
        forall|s: &ItemStats| #[trigger] matches.requires((s,)),
    ensures
        matching(items@, matches, r@),
{
    let mut rest = items;
    let ghost all = rest@;
    // What matches is gathered from behind, and turned round at the end.
    let mut back: Vec<ItemStats> = Vec::new();
    assert(all.skip(all.len() as int) =~= seq![]);
    assert(back@.reverse() =~= seq![]);
    while rest.len() > 0
        invariant
            rest.len() <= all.len(),
            rest@ == all.take(rest.len() as int),
            forall|s: &ItemStats| #[trigger] matches.requires((s,)),
            matching(all.skip(rest.len() as int), matches, back@.reverse()),
        decreases rest.len(),
    {
        let ghost n = rest.len() as int;
        let s = rest.pop().unwrap();
        assert(rest@ =~= all.take(n - 1));
        let ghost later = all.skip(n - 1);
        let ghost hits = back@.reverse();
        assert(later[0] == s);
        assert(later.skip(1) =~= all.skip(n));
        if matches(&s) {
            back.push(s);
            assert(back@.reverse()[0] == s);
            assert(back@.reverse().skip(1) =~= hits);
        }
    }
    assert(all.skip(0) =~= all);
    let ghost hits = back@.reverse();
    let mut r: Vec<ItemStats> = Vec::new();
    while back.len() > 0
        invariant
            back.len() + r.len() == hits.len(),
            r@ + back@.reverse() == hits,
        decreases back.len(),
    {
        let ghost before = r@ + back@.reverse();
        let s = back.pop().unwrap();
        r.push(s);
        assert(r@ + back@.reverse() =~= before);
    }
    assert(r@ =~= hits);
    r
}

} // verus!
