//! What holds of when a party goes to town, who goes and what each is given.

use crate::logistics::{
    added, asked, dealt, decided, first_line, givers, handed, lemma_dealt, lines, lows, numbered,
    outranks, poured, reason, runner, said_switch, shares, sum_of, takers, tally, waited_for,
    GroupMode, Low, Plan, Restock, Stage, Stake, Supplies, Switch,
};
use crate::logistics_laws::law_quartermaster_is_the_best;
use crate::order::{arranged, lemma_arranged_in_order, lemma_arranged_keeps, put_in, sound, Ranked};
use crate::single::Single;
use crate::sums::{lemma_total_joined, total};
use crate::text::{
    lemma_precedes_irreflexive, lemma_precedes_total, lemma_precedes_transitive, precedes, shown,
};
use vstd::prelude::*;

verus! {

/// One member of a party would shop for it rather than another: it has more room,
/// or as much and more money, or as much of both and a name that is no later.
pub open spec fn shops_rather(a: Supplies, b: Supplies) -> bool {
    if a.free_space != b.free_space {
        a.free_space > b.free_space
    } else if a.purse != b.purse {
        a.purse > b.purse
    } else {
        !precedes(b.name@, a.name@)
    }
}

/// The one that shops has a name and would do it rather than anybody else that
/// has one; nobody does only where nobody has.
pub proof fn law_who_shops_for_the_party(mates: Seq<Supplies>)
    ensures
        match runner(mates, mates.len()) {
            Some(i) => 0 <= i < mates.len() && mates[i].name@.len() > 0 && forall|j: int|
                0 <= j < mates.len() && (#[trigger] mates[j]).name@.len() > 0 ==> shops_rather(
                    mates[i],
                    mates[j],
                ),
            None => forall|j: int| 0 <= j < mates.len() ==> (#[trigger] mates[j]).name@.len() == 0,
        },
{
    law_quartermaster_is_the_best(mates);
    if let Some(i) = runner(mates, mates.len()) {
        assert forall|j: int|
            0 <= j < mates.len() && (#[trigger] mates[j]).name@.len() > 0 implies shops_rather(
            mates[i],
            mates[j],
        ) by {
            assert(!outranks(mates[j], mates[i]));
        }
    }
}

/// A policy's bars as they are kept: leaving between 0 and 0.95, coming home at
/// least 0.05 above that and at most 1; all the rest as it was set.
pub proof fn law_a_policy_is_kept_within_bounds(cfg: Restock)
    requires
        !cfg.go_at.nan(),
        !cfg.full_at.nan(),
    ensures
        ({
            let go = cfg.sound().go_at;
            let full = cfg.sound().full_at;
            let nought = Single { bits: 0 };
            let latest = Single { bits: 0x3f73_3333 };
            let least = go.sum(Single { bits: 0x3d4c_cccd });
            let whole = Single { bits: 0x3f80_0000 };
            &&& cfg.go_at.below(nought) ==> go == nought
            &&& latest.below(cfg.go_at) ==> go == latest
            &&& nought.at_most(cfg.go_at) && cfg.go_at.at_most(latest) ==> go == cfg.go_at
            &&& cfg.full_at.below(least) ==> full == least
            &&& !cfg.full_at.below(least) && whole.below(cfg.full_at) ==> full == whole
            &&& least.at_most(cfg.full_at) && cfg.full_at.at_most(whole) ==> full == cfg.full_at
            &&& cfg.sound() == (Restock { go_at: go, full_at: full, ..cfg })
        }),
{
}

/// A member wants to go to town: its pack is full, it carries as much as it
/// means to, it has loot for a counter, or it is under the bar.
pub open spec fn wants_out(m: Supplies, bar: Single) -> bool {
    m.pack_full || m.laden || m.sale || m.level.below(bar)
}

/// A hunting party goes to town just when one of it wants to; it first loads the
/// one that shops where its plan is to send one, there are two or more of them,
/// and that one has the room, and otherwise they all shop.
pub proof fn law_one_that_wants_town_takes_the_party(
    mates: Seq<Supplies>,
    cfg: Restock,
    round: u32,
)
    ensures
        decided(GroupMode::Hunting, mates, cfg, round) is Some <==> exists|i: int|
            0 <= i < mates.len() && wants_out(#[trigger] mates[i], cfg.sound().go_at),
        match decided(GroupMode::Hunting, mates, cfg, round) {
            None => true,
            Some((mode, _)) => {
                let q = runner(mates, mates.len());
                &&& mode is Restocking
                &&& mode == GroupMode::Restocking(Stage::HandOver) <==> cfg.plan
                    == Plan::Quartermaster && mates.len() >= 2 && q is Some
                    && mates[q->0].free_space >= cfg.runner_space
                &&& mode != GroupMode::Restocking(Stage::HandOver) ==> mode
                    == GroupMode::Restocking(Stage::Shopping)
            },
        },
{
    assert forall|i: int| 0 <= i < mates.len() implies (wants_out(
        #[trigger] mates[i],
        cfg.sound().go_at,
    ) == mates[i].spec_wants_town(cfg.sound())) by {}
    if decided(GroupMode::Hunting, mates, cfg, round) is Some {
        let i = choose|i: int|
            0 <= i < mates.len() && (#[trigger] mates[i]).spec_wants_town(cfg.sound());
        assert(wants_out(mates[i], cfg.sound().go_at));
    } else {
        assert forall|i: int| 0 <= i < mates.len() implies !wants_out(
            #[trigger] mates[i],
            cfg.sound().go_at,
        ) by {
            assert(!mates[i].spec_wants_town(cfg.sound()));
        }
    }
}

/// A member has what it came for: it is stocked, or it has nothing to pay with.
pub open spec fn is_done(m: Supplies) -> bool {
    m.stocked || m.broke
}

pub open spec fn all_done(mates: Seq<Supplies>) -> bool {
    forall|i: int| 0 <= i < mates.len() ==> is_done(#[trigger] mates[i])
}

/// What a party on a trip does next, step by step: all shop until all are done;
/// the one that shops sets out when everybody else has handed over, is back when
/// it is done, and hands out until all are done. If it has nothing left to hand out
/// and somebody is not done, it goes again, as often as the policy lets it.
pub proof fn law_a_trip_goes_step_by_step(
    stage: Stage,
    mates: Seq<Supplies>,
    cfg: Restock,
    round: u32,
)
    requires
        mates.len() > 0,
    ensures
        ({
            let next = match decided(GroupMode::Restocking(stage), mates, cfg, round) {
                Some((mode, _)) => Some(mode),
                None => None,
            };
            let who = runner(mates, mates.len());
            let q = mates[who->0];
            let handed_in = forall|i: int|
                0 <= i < mates.len() ==> (#[trigger] mates[i]).handed_over || mates[i].name@
                    == q.name@;
            match stage {
                Stage::Shopping => next == if all_done(mates) {
                    Some(GroupMode::Hunting)
                } else {
                    None
                },
                Stage::HandOver => next == if who is Some && handed_in {
                    Some(GroupMode::Restocking(Stage::Away))
                } else {
                    None
                },
                Stage::Away => next == if who is Some && is_done(q) {
                    Some(GroupMode::Restocking(Stage::HandOut))
                } else {
                    None
                },
                Stage::HandOut => {
                    &&& all_done(mates) ==> next == Some(GroupMode::Hunting)
                    &&& !all_done(mates) && (who is None || q.holding_orders) ==> next is None
                    &&& !all_done(mates) && who is Some && !q.holding_orders ==> next == Some(
                        if round + 1 < cfg.max_rounds {
                            GroupMode::Restocking(Stage::HandOver)
                        } else {
                            GroupMode::Hunting
                        },
                    )
                },
            }
        }),
{
    if crate::logistics::all_settled(mates) {
        assert forall|i: int| 0 <= i < mates.len() implies is_done(#[trigger] mates[i]) by {
            assert(mates[i].spec_settled());
        }
    } else {
        let i = choose|i: int| 0 <= i < mates.len() && !(#[trigger] mates[i]).spec_settled();
        assert(!is_done(mates[i]));
    }
}

proof fn lemma_waited(mates: Seq<Supplies>, n: nat)
    requires
        n <= mates.len(),
    ensures
        waited_for(mates, n) == mates.take(n as int).filter(|m: Supplies| !is_done(m)).map_values(
            |m: Supplies| m.name@,
        ),
    decreases n,
{
    reveal(Seq::filter);
    let p = |m: Supplies| !is_done(m);
    let f = |m: Supplies| m.name@;
    let all = mates.take(n as int);
    if n == 0 {
        assert(waited_for(mates, n) =~= all.filter(p).map_values(f));
    } else {
        lemma_waited(mates, (n - 1) as nat);
        assert(all.drop_last() =~= mates.take(n - 1));
        assert(all.last() == mates[n - 1]);
        assert(waited_for(mates, n) =~= all.filter(p).map_values(f));
    }
}

/// The ones still shopping are those that are not done, in their order.
pub proof fn law_the_ones_not_done_are_waited_for(mates: Seq<Supplies>)
    ensures
        waited_for(mates, mates.len()) == mates.filter(|m: Supplies| !is_done(m)).map_values(
            |m: Supplies| m.name@,
        ),
{
    lemma_waited(mates, mates.len());
    assert(mates.take(mates.len() as int) =~= mates);
}

proof fn lemma_low_lines(mates: Seq<Supplies>, cfg: Restock, n: nat)
    requires
        n <= mates.len() <= usize::MAX,
    ensures
        ({
            let low = lows(mates, cfg, n);
            &&& forall|k: int|
                0 <= k < low.len() ==> (#[trigger] low[k]).at < n && low[k].level
                    == mates[low[k].at as int].level && wants_out(
                    mates[low[k].at as int],
                    cfg.go_at,
                )
            &&& forall|j: int, k: int|
                0 <= j < k < low.len() ==> (#[trigger] low[j]).at < (#[trigger] low[k]).at
            &&& forall|i: int|
                0 <= i < n && wants_out(#[trigger] mates[i], cfg.go_at) ==> low.contains(
                    Low { level: mates[i].level, at: i as usize },
                )
        }),
    decreases n,
{
    if n > 0 {
        lemma_low_lines(mates, cfg, (n - 1) as nat);
        let before = lows(mates, cfg, (n - 1) as nat);
        let low = lows(mates, cfg, n);
        assert forall|i: int|
            0 <= i < n && wants_out(#[trigger] mates[i], cfg.go_at) implies low.contains(
            Low { level: mates[i].level, at: i as usize },
        ) by {
            let l = Low { level: mates[i].level, at: i as usize };
            if i < n - 1 {
                assert(before.contains(l));
                let k = choose|k: int| 0 <= k < before.len() && before[k] == l;
                assert(low[k] == l);
            } else {
                assert(low[low.len() - 1] == l);
            }
        }
    }
}

proof fn lemma_put_in_behind<T: Ranked>(s: Seq<T>, x: T, key: spec_fn(T) -> int)
    requires
        forall|k: int| 0 <= k < s.len() ==> key(#[trigger] s[k]) < key(x),
        forall|i: int, j: int|
            0 <= i < j < s.len() && !(#[trigger] s[i]).before(#[trigger] s[j]) ==> key(s[i]) < key(
                s[j],
            ),
    ensures
        forall|i: int, j: int|
            0 <= i < j < put_in(s, x).len() && !(#[trigger] put_in(s, x)[i]).before(
                #[trigger] put_in(s, x)[j],
            ) ==> key(put_in(s, x)[i]) < key(put_in(s, x)[j]),
        forall|k: int|
            0 <= k < put_in(s, x).len() ==> #[trigger] put_in(s, x)[k] == x || s.contains(
                put_in(s, x)[k],
            ),
    decreases s.len(),
{
    let r = put_in(s, x);
    if s.len() == 0 || !x.before(s.last()) {
        assert forall|k: int| 0 <= k < r.len() implies #[trigger] r[k] == x || s.contains(r[k]) by {
            if k < s.len() {
                assert(r[k] == s[k]);
            }
        }
        assert forall|i: int, j: int|
            0 <= i < j < r.len() && !(#[trigger] r[i]).before(#[trigger] r[j]) implies key(r[i])
            < key(r[j]) by {
            assert(r[i] == s[i]);
            if j < s.len() {
                assert(r[j] == s[j]);
            }
        }
    } else {
        let t = s.drop_last();
        assert forall|k: int| 0 <= k < t.len() implies key(#[trigger] t[k]) < key(x) by {
            assert(t[k] == s[k]);
        }
        assert forall|i: int, j: int|
            0 <= i < j < t.len() && !(#[trigger] t[i]).before(#[trigger] t[j]) implies key(t[i])
            < key(t[j]) by {
            assert(t[i] == s[i] && t[j] == s[j]);
        }
        lemma_put_in_behind(t, x, key);
        let p = put_in(t, x);
        crate::order::lemma_put_in_keeps(t, x);
        assert(r == p.push(s.last()));
        assert forall|k: int| 0 <= k < r.len() implies #[trigger] r[k] == x || s.contains(r[k]) by {
            if k < p.len() {
                assert(r[k] == p[k]);
                if p[k] != x {
                    let m = choose|m: int| 0 <= m < t.len() && t[m] == p[k];
                    assert(s[m] == p[k]);
                }
            } else {
                assert(s[s.len() - 1] == r[k]);
            }
        }
        assert forall|i: int, j: int|
            0 <= i < j < r.len() && !(#[trigger] r[i]).before(#[trigger] r[j]) implies key(r[i])
            < key(r[j]) by {
            assert(r[i] == p[i]);
            if j < p.len() {
                assert(r[j] == p[j]);
            } else if p[i] != x {
                let m = choose|m: int| 0 <= m < t.len() && t[m] == p[i];
                assert(s[m] == p[i]);
                assert(s[s.len() - 1] == r[j]);
            }
        }
    }
}

/// Putting things in order leaves those that tie as they came.
pub proof fn law_ties_stand_as_they_came<T: Ranked>(s: Seq<T>, key: spec_fn(T) -> int)
    requires
        forall|i: int, j: int| 0 <= i < j < s.len() ==> key(#[trigger] s[i]) < key(#[trigger] s[j]),
    ensures
        forall|i: int, j: int|
            0 <= i < j < arranged(s).len() && !(#[trigger] arranged(s)[i]).before(
                #[trigger] arranged(s)[j],
            ) ==> key(arranged(s)[i]) < key(arranged(s)[j]),
        forall|k: int| 0 <= k < arranged(s).len() ==> s.contains(#[trigger] arranged(s)[k]),
    decreases s.len(),
{
    if s.len() > 0 {
        let t = s.drop_last();
        assert forall|i: int, j: int| 0 <= i < j < t.len() implies key(#[trigger] t[i]) < key(
            #[trigger] t[j],
        ) by {
            assert(t[i] == s[i] && t[j] == s[j]);
        }
        law_ties_stand_as_they_came(t, key);
        let a = arranged(t);
        assert forall|k: int| 0 <= k < a.len() implies key(#[trigger] a[k]) < key(s.last()) by {
            assert(t.contains(a[k]));
            let m = choose|m: int| 0 <= m < t.len() && t[m] == a[k];
            assert(s[m] == a[k] && s[s.len() - 1] == s.last());
        }
        lemma_put_in_behind(a, s.last(), key);
        assert forall|k: int| 0 <= k < arranged(s).len() implies s.contains(
            #[trigger] arranged(s)[k],
        ) by {
            let x = put_in(a, s.last())[k];
            if x == s.last() {
                assert(s[s.len() - 1] == x);
            } else {
                assert(a.contains(x));
                let m = choose|m: int| 0 <= m < a.len() && a[m] == x;
                assert(t.contains(a[m]));
                let l = choose|l: int| 0 <= l < t.len() && t[l] == x;
                assert(s[l] == x);
            }
        }
    }
}

/// Those that take the party to town are told of each once, all that want to go,
/// the emptiest first and those as empty in their order.
pub proof fn law_the_emptiest_is_told_of_first(mates: Seq<Supplies>, cfg: Restock)
    requires
        mates.len() <= usize::MAX,
    ensures
        ({
            let told = arranged(lows(mates, cfg, mates.len()));
            &&& forall|k: int|
                0 <= k < told.len() ==> (#[trigger] told[k]).at < mates.len() && wants_out(
                    mates[told[k].at as int],
                    cfg.go_at,
                ) && told[k].level == mates[told[k].at as int].level
            &&& forall|i: int|
                0 <= i < mates.len() && wants_out(#[trigger] mates[i], cfg.go_at) ==> exists|
                    k: int,
                |
                    0 <= k < told.len() && (#[trigger] told[k]).at == i
            &&& forall|j: int, k: int|
                0 <= j < k < told.len() ==> (#[trigger] told[j]).level.place() < (
                #[trigger] told[k]).level.place() || (told[j].level.place()
                    == told[k].level.place() && told[j].at < told[k].at)
        }),
{
    let low = lows(mates, cfg, mates.len());
    let told = arranged(low);
    lemma_low_lines(mates, cfg, mates.len());
    assert(sound::<Low>());
    lemma_arranged_in_order(low);
    lemma_arranged_keeps(low);
    let key = |l: Low| l.at as int;
    law_ties_stand_as_they_came(low, key);
    assert forall|k: int| 0 <= k < told.len() implies (#[trigger] told[k]).at < mates.len()
        && wants_out(mates[told[k].at as int], cfg.go_at) && told[k].level
        == mates[told[k].at as int].level by {
        assert(low.contains(told[k]));
        let m = choose|m: int| 0 <= m < low.len() && low[m] == told[k];
        assert(low[m].at < mates.len());
    }
    assert forall|i: int|
        0 <= i < mates.len() && wants_out(#[trigger] mates[i], cfg.go_at) implies exists|k: int|
        0 <= k < told.len() && (#[trigger] told[k]).at == i by {
        let l = Low { level: mates[i].level, at: i as usize };
        assert(low.contains(l));
        low.to_multiset_ensures();
        told.to_multiset_ensures();
        assert(low.to_multiset().count(l) > 0);
        assert(told.contains(l));
        let k = choose|k: int| 0 <= k < told.len() && told[k] == l;
        assert(told[k].at == i);
    }
    assert forall|j: int, k: int| 0 <= j < k < told.len() implies (
    #[trigger] told[j]).level.place() < (#[trigger] told[k]).level.place() || (
    told[j].level.place() == told[k].level.place() && told[j].at < told[k].at) by {
        assert(!told[k].before(told[j]));
        if !told[j].before(told[k]) {
            assert(key(told[j]) < key(told[k]));
        }
    }
}

/// How many of a name some lines order is what all the lines of that name order
/// between them.
pub proof fn law_an_order_counts_every_line(s: Seq<(String, u32)>, name: Seq<char>)
    ensures
        tally(s, name) == total(
            s.map_values(
                |l: (String, u32)|
                    if l.0@ == name {
                        l.1 as int
                    } else {
                        0
                    },
            ),
        ),
    decreases s.len(),
{
    let f = |l: (String, u32)|
        if l.0@ == name {
            l.1 as int
        } else {
            0
        };
    if s.len() > 0 {
        law_an_order_counts_every_line(s.drop_last(), name);
        assert(s.map_values(f).drop_last() =~= s.drop_last().map_values(f));
    }
}

proof fn lemma_tally_joined(a: Seq<(String, u32)>, b: Seq<(String, u32)>, name: Seq<char>)
    ensures
        tally(a + b, name) == tally(a, name) + tally(b, name),
{
    let f = |l: (String, u32)|
        if l.0@ == name {
            l.1 as int
        } else {
            0
        };
    law_an_order_counts_every_line(a, name);
    law_an_order_counts_every_line(b, name);
    law_an_order_counts_every_line(a + b, name);
    assert((a + b).map_values(f) =~= a.map_values(f) + b.map_values(f));
    lemma_total_joined(a.map_values(f), b.map_values(f));
}

proof fn lemma_lines_tally(mates: Seq<Supplies>, name: Seq<char>, n: nat)
    requires
        n <= mates.len(),
    ensures
        tally(lines(mates, n), name) == total(
            mates.take(n as int).map_values(|m: Supplies| tally(m.order@, name)),
        ),
    decreases n,
{
    let f = |m: Supplies| tally(m.order@, name);
    if n > 0 {
        lemma_lines_tally(mates, name, (n - 1) as nat);
        lemma_tally_joined(lines(mates, (n - 1) as nat), mates[n - 1].order@, name);
        assert(mates.take(n as int).map_values(f).drop_last() =~= mates.take(n - 1).map_values(f));
    }
}

/// What the party orders of a name is what its members order of it between them.
pub proof fn law_a_party_orders_what_its_members_do(mates: Seq<Supplies>, name: Seq<char>)
    ensures
        tally(lines(mates, mates.len()), name) == total(
            mates.map_values(|m: Supplies| tally(m.order@, name)),
        ),
{
    lemma_lines_tally(mates, name, mates.len());
    assert(mates.take(mates.len() as int) =~= mates);
}

/// The first line of an order for an item is what is asked of it.
pub open spec fn asks(order: Seq<(String, u32)>, item: Seq<char>, number: u32) -> bool {
    exists|i: int|
        0 <= i < order.len() && (#[trigger] order[i]).0@ == item && order[i].1 == number && forall|
            j: int,
        |
            0 <= j < i ==> (#[trigger] order[j]).0@ != item
}

proof fn lemma_first_line(order: Seq<(String, u32)>, item: Seq<char>, i: int)
    requires
        0 <= i <= order.len(),
        forall|j: int| 0 <= j < i ==> (#[trigger] order[j]).0@ != item,
    ensures
        match first_line(order, item, i) {
            Some(number) => asks(order, item, number),
            None => forall|j: int| 0 <= j < order.len() ==> (#[trigger] order[j]).0@ != item,
        },
    decreases order.len() - i,
{
    if i < order.len() && order[i].0@ != item {
        lemma_first_line(order, item, i + 1);
    }
}

/// A member is in line for an item: its first line for it asks for some.
pub open spec fn in_want(m: Supplies, item: Seq<char>) -> bool {
    first_line(m.order@, item, 0) is Some && first_line(m.order@, item, 0)->0 > 0
}

/// What a member asks of an item goes by the first line of its order that names
/// it, and by nothing else.
pub proof fn law_the_first_line_is_what_is_asked(m: Supplies, item: Seq<char>)
    ensures
        match first_line(m.order@, item, 0) {
            Some(number) => asks(m.order@, item, number),
            None => forall|j: int| 0 <= j < m.order@.len() ==> (#[trigger] m.order@[j]).0@ != item,
        },
{
    lemma_first_line(m.order@, item, 0);
}

proof fn lemma_asked_of(mates: Seq<Supplies>, item: Seq<char>, n: nat)
    requires
        n <= mates.len(),
    ensures
        asked(mates, item, n).map_values(|s: Stake| (s.name, s.amount)) == mates.take(
            n as int,
        ).filter(|m: Supplies| in_want(m, item)).map_values(
            |m: Supplies| (m.name, first_line(m.order@, item, 0)->0),
        ),
    decreases n,
{
    reveal(Seq::filter);
    let p = |m: Supplies| in_want(m, item);
    let f = |m: Supplies| (m.name, first_line(m.order@, item, 0)->0);
    let g = |s: Stake| (s.name, s.amount);
    let all = mates.take(n as int);
    if n == 0 {
        assert(asked(mates, item, n).map_values(g) =~= all.filter(p).map_values(f));
    } else {
        lemma_asked_of(mates, item, (n - 1) as nat);
        assert(all.drop_last() =~= mates.take(n - 1));
        assert(all.last() == mates[n - 1]);
        let before = asked(mates, item, (n - 1) as nat);
        if in_want(mates[n - 1], item) {
            assert(asked(mates, item, n).map_values(g) =~= before.map_values(g).push(
                f(mates[n - 1]),
            ));
        }
        assert(asked(mates, item, n).map_values(g) =~= all.filter(p).map_values(f));
    }
}

/// Those an item is handed to are the members that ask for some of it, each with
/// what it asks, in their order.
pub proof fn law_all_that_ask_are_in_line(mates: Seq<Supplies>, item: Seq<char>)
    ensures
        asked(mates, item, mates.len()).map_values(|s: Stake| (s.name, s.amount)) == mates.filter(
            |m: Supplies| in_want(m, item),
        ).map_values(|m: Supplies| (m.name, first_line(m.order@, item, 0)->0)),
{
    lemma_asked_of(mates, item, mates.len());
    assert(mates.take(mates.len() as int) =~= mates);
}

proof fn lemma_nothing_left(given: Seq<u32>, who: Seq<Stake>, line: Seq<Stake>)
    requires
        given.len() == who.len(),
        forall|k: int| 0 <= k < line.len() ==> (#[trigger] line[k]).at < who.len(),
        forall|i: int| 0 <= i < who.len() ==> (#[trigger] given[i]) <= who[i].amount,
    ensures
        poured(given, who, line, 0) == given,
    decreases line.len(),
{
    if line.len() > 0 {
        let i = line[0].at as int;
        assert(given.update(i, (given[i] + 0) as u32) =~= given);
        let rest = line.drop_first();
        assert forall|k: int| 0 <= k < rest.len() implies (#[trigger] rest[k]).at < who.len() by {
            assert(rest[k] == line[k + 1]);
        }
        lemma_nothing_left(given, who, rest);
    }
}

proof fn lemma_untouched(given: Seq<u32>, who: Seq<Stake>, line: Seq<Stake>, left: int, i: int)
    requires
        given.len() == who.len(),
        left >= 0,
        0 <= i < who.len(),
        forall|k: int| 0 <= k < line.len() ==> (#[trigger] line[k]).at < who.len(),
        forall|k: int| 0 <= k < line.len() ==> (#[trigger] line[k]).at != i,
    ensures
        poured(given, who, line, left)[i] == given[i],
    decreases line.len(),
{
    if line.len() > 0 {
        let a = line[0].at as int;
        let room = who[a].amount - given[a];
        let give = if room < left {
            room
        } else {
            left
        };
        let rest = line.drop_first();
        assert forall|k: int| 0 <= k < rest.len() implies (#[trigger] rest[k]).at < who.len()
            && rest[k].at != i by {
            assert(rest[k] == line[k + 1]);
        }
        assert(line[0].at != i);
        lemma_untouched(
            given.update(a, (given[a] + give) as u32),
            who,
            rest,
            left - give,
            i,
        );
    }
}

proof fn lemma_poured_in_turn(
    given: Seq<u32>,
    who: Seq<Stake>,
    line: Seq<Stake>,
    left: int,
    a: int,
    b: int,
)
    requires
        given.len() == who.len(),
        left >= 0,
        0 <= a < b < line.len(),
        forall|k: int| 0 <= k < line.len() ==> (#[trigger] line[k]).at < who.len(),
        forall|j: int, k: int|
            0 <= j < k < line.len() ==> (#[trigger] line[j]).at != (#[trigger] line[k]).at,
        forall|i: int| 0 <= i < who.len() ==> (#[trigger] given[i]) <= who[i].amount,
    ensures
        poured(given, who, line, left)[line[b].at as int] > given[line[b].at as int] ==> poured(
            given,
            who,
            line,
            left,
        )[line[a].at as int] == who[line[a].at as int].amount,
    decreases line.len(),
{
    let i = line[0].at as int;
    let room = who[i].amount - given[i];
    let give = if room < left {
        room
    } else {
        left
    };
    let next = given.update(i, (given[i] + give) as u32);
    let rest = line.drop_first();
    assert forall|k: int| 0 <= k < rest.len() implies (#[trigger] rest[k]).at < who.len() by {
        assert(rest[k] == line[k + 1]);
    }
    assert forall|j: int, k: int| 0 <= j < k < rest.len() implies (#[trigger] rest[j]).at != (
    #[trigger] rest[k]).at by {
        assert(rest[j] == line[j + 1] && rest[k] == line[k + 1]);
    }
    assert(rest[b - 1] == line[b]);
    assert(line[b].at != line[0].at);
    if a == 0 {
        assert forall|k: int| 0 <= k < rest.len() implies (#[trigger] rest[k]).at != i by {
            assert(rest[k] == line[k + 1]);
            assert(line[0].at != line[k + 1].at);
        }
        lemma_untouched(next, who, rest, left - give, i);
        if give < room {
            lemma_nothing_left(next, who, rest);
        }
    } else {
        assert(rest[a - 1] == line[a]);
        assert(line[a].at != line[0].at);
        lemma_poured_in_turn(next, who, rest, left - give, a - 1, b - 1);
    }
}

proof fn lemma_stakes_are_sound()
    ensures
        sound::<Stake>(),
{
    assert forall|x: Stake, y: Stake| #![trigger x.before(y)] x.before(y) implies !y.before(x) by {
        if x.amount == y.amount && precedes(y.name@, x.name@) {
            lemma_precedes_transitive(x.name@, y.name@, x.name@);
            lemma_precedes_irreflexive(x.name@);
        }
    }
    assert forall|x: Stake, y: Stake, z: Stake|
        #![trigger y.before(x), z.before(y)]
        !y.before(x) && !z.before(y) implies !z.before(x) by {
        if z.amount == x.amount && precedes(z.name@, x.name@) {
            if y.amount == x.amount {
                if precedes(x.name@, y.name@) {
                    lemma_precedes_transitive(z.name@, x.name@, y.name@);
                } else {
                    lemma_precedes_total(x.name@, y.name@);
                }
            }
        }
    }
}

/// What is left over when something is shared out goes to those that asked for
/// most, by name where they asked for as much: nobody is given more than its
/// share while one before it is short of anything.
pub proof fn law_the_largest_order_is_filled_first(
    who: Seq<Stake>,
    brought: u32,
    i: int,
    j: int,
)
    requires
        numbered(who),
        brought < sum_of(who),
        0 <= i < who.len(),
        0 <= j < who.len(),
        who[i].amount > who[j].amount || (who[i].amount == who[j].amount && precedes(
            who[i].name@,
            who[j].name@,
        )),
    ensures
        dealt(who, brought)[j] > who[j].amount * brought / sum_of(who) ==> dealt(who, brought)[i]
            == who[i].amount,
{
    let wanted = sum_of(who);
    let down = shares(who, brought as int, wanted);
    let line = arranged(who);
    lemma_dealt(who, brought);
    lemma_stakes_are_sound();
    lemma_arranged_in_order(who);
    lemma_arranged_keeps(who);
    let key = |s: Stake| s.at as int;
    law_ties_stand_as_they_came(who, key);
    line.to_multiset_ensures();
    who.to_multiset_ensures();
    assert(who.contains(who[i]) && who.contains(who[j]));
    assert(who.to_multiset().count(who[i]) > 0 && who.to_multiset().count(who[j]) > 0);
    assert(line.contains(who[i]) && line.contains(who[j]));
    let a = choose|a: int| 0 <= a < line.len() && line[a] == who[i];
    let b = choose|b: int| 0 <= b < line.len() && line[b] == who[j];
    assert(who[i].before(who[j]));
    assert(!who[j].before(who[i]));
    assert(a != b);
    if b < a {
        assert(!line[a].before(line[b]));
    }
    assert forall|k: int| 0 <= k < line.len() implies (#[trigger] line[k]).at < who.len() by {
        assert(who.contains(line[k]));
    }
    assert forall|p: int, q: int| 0 <= p < q < line.len() implies (#[trigger] line[p]).at != (
    #[trigger] line[q]).at by {
        assert(who.contains(line[p]) && who.contains(line[q]));
        let x = choose|x: int| 0 <= x < who.len() && who[x] == line[p];
        let y = choose|y: int| 0 <= y < who.len() && who[y] == line[q];
        if x == y {
            lemma_twice(line, p, q);
            lemma_once(who, x);
        }
    }
    assert forall|k: int| 0 <= k < who.len() implies (#[trigger] down[k]) <= who[k].amount
        && down[k] == who[k].amount * brought / wanted by {
        let n = who[k].amount as int;
        assert(0 <= n * brought / wanted <= n) by (nonlinear_arith)
            requires
                0 <= brought < wanted,
                n >= 0,
        ;
    }
    lemma_left_over(who, brought);
    lemma_poured_in_turn(down, who, line, brought - added(down), a, b);
}

proof fn lemma_left_over(who: Seq<Stake>, brought: u32)
    requires
        numbered(who),
        brought < sum_of(who),
    ensures
        added(shares(who, brought as int, sum_of(who))) <= brought,
{
    lemma_shared_down(who, brought as int, sum_of(who));
    let d = added(shares(who, brought as int, sum_of(who)));
    let w = sum_of(who);
    assert(d <= brought) by (nonlinear_arith)
        requires
            d * w <= w * brought,
            w > 0,
    ;
}

proof fn lemma_shared_down(who: Seq<Stake>, brought: int, wanted: int)
    requires
        0 <= brought < wanted,
    ensures
        added(shares(who, brought, wanted)) * wanted <= sum_of(who) * brought,
    decreases who.len(),
{
    let d = shares(who, brought, wanted);
    if who.len() > 0 {
        lemma_shared_down(who.drop_last(), brought, wanted);
        assert(d.drop_last() =~= shares(who.drop_last(), brought, wanted));
        let n = who.last().amount as int;
        let q = n * brought / wanted;
        assert(0 <= q <= n && q * wanted <= n * brought) by (nonlinear_arith)
            requires
                q == n * brought / wanted,
                0 <= brought < wanted,
                n >= 0,
        ;
        let x = added(d.drop_last());
        let y = sum_of(who.drop_last());
        assert((x + q) * wanted == x * wanted + q * wanted) by (nonlinear_arith);
        assert((y + n) * brought == y * brought + n * brought) by (nonlinear_arith);
    } else {
        assert(0 * wanted <= 0 * brought);
    }
}

proof fn lemma_twice<T>(s: Seq<T>, p: int, q: int)
    requires
        0 <= p < q < s.len(),
        s[p] == s[q],
    ensures
        s.to_multiset().count(s[p]) >= 2,
{
    let t = s.remove(q);
    t.to_multiset_ensures();
    s.to_multiset_ensures();
    assert(t.insert(q, s[q]) =~= s);
    assert(t[p] == s[p]);
    assert(t.contains(s[p]));
    assert(s.to_multiset() =~= t.to_multiset().insert(s[q]));
}

proof fn lemma_once(who: Seq<Stake>, x: int)
    requires
        numbered(who),
        0 <= x < who.len(),
    ensures
        who.to_multiset().count(who[x]) < 2,
{
    let t = who.remove(x);
    t.to_multiset_ensures();
    who.to_multiset_ensures();
    assert(who.to_multiset() =~= t.to_multiset().insert(who[x]));
    if who.to_multiset().count(who[x]) >= 2 {
        assert(t.contains(who[x]));
        let k = choose|k: int| 0 <= k < t.len() && t[k] == who[x];
        if k < x {
            assert(t[k] == who[k]);
        } else {
            assert(t[k] == who[k + 1]);
        }
    }
}

proof fn lemma_handed_to(who: Seq<Stake>, given: Seq<u32>, n: nat)
    requires
        n <= who.len() == given.len(),
    ensures
        handed(who, given, n) == Seq::new(n, |i: int| (who[i].name, given[i])).filter(
            |l: (String, u32)| l.1 > 0,
        ),
    decreases n,
{
    reveal(Seq::filter);
    let all = Seq::new(n, |i: int| (who[i].name, given[i]));
    if n == 0 {
        assert(handed(who, given, n) =~= all.filter(|l: (String, u32)| l.1 > 0));
    } else {
        lemma_handed_to(who, given, (n - 1) as nat);
        assert(all.drop_last() =~= Seq::new((n - 1) as nat, |i: int| (who[i].name, given[i])));
        assert(all.last() == (who[n - 1].name, given[n - 1]));
    }
}

/// Everybody that is given some of an item is listed with it, in order, and nobody
/// that is given none.
pub proof fn law_what_is_handed_out_is_listed(who: Seq<Stake>, given: Seq<u32>)
    requires
        who.len() == given.len(),
    ensures
        handed(who, given, who.len()) == Seq::new(
            who.len(),
            |i: int| (who[i].name, given[i]),
        ).filter(|l: (String, u32)| l.1 > 0),
{
    lemma_handed_to(who, given, who.len());
}

proof fn lemma_has_over(mates: Seq<Supplies>, n: nat)
    requires
        n <= mates.len(),
    ensures
        givers(mates, n).map_values(|s: Stake| (s.name, s.amount as int)) == mates.take(
            n as int,
        ).filter(|m: Supplies| m.purse > m.bill).map_values(
            |m: Supplies| (m.name, m.purse - m.bill),
        ),
    decreases n,
{
    reveal(Seq::filter);
    let p = |m: Supplies| m.purse > m.bill;
    let f = |m: Supplies| (m.name, m.purse - m.bill);
    let g = |s: Stake| (s.name, s.amount as int);
    let all = mates.take(n as int);
    if n > 0 {
        lemma_has_over(mates, (n - 1) as nat);
        assert(all.drop_last() =~= mates.take(n - 1));
        assert(all.last() == mates[n - 1]);
        let before = givers(mates, (n - 1) as nat);
        if mates[n - 1].purse > mates[n - 1].bill {
            assert(givers(mates, n).map_values(g) =~= before.map_values(g).push(f(mates[n - 1])));
            assert(all.filter(p).map_values(f) =~= mates.take(n - 1).filter(p).map_values(f).push(
                f(mates[n - 1]),
            ));
        }
    }
    assert(givers(mates, n).map_values(g) =~= all.filter(p).map_values(f));
}

proof fn lemma_lacks(mates: Seq<Supplies>, n: nat)
    requires
        n <= mates.len(),
    ensures
        takers(mates, n).map_values(|s: Stake| (s.name, s.amount as int)) == mates.take(
            n as int,
        ).filter(|m: Supplies| m.bill > m.purse).map_values(
            |m: Supplies| (m.name, m.bill - m.purse),
        ),
    decreases n,
{
    reveal(Seq::filter);
    let p = |m: Supplies| m.bill > m.purse;
    let f = |m: Supplies| (m.name, m.bill - m.purse);
    let g = |s: Stake| (s.name, s.amount as int);
    let all = mates.take(n as int);
    if n > 0 {
        lemma_lacks(mates, (n - 1) as nat);
        assert(all.drop_last() =~= mates.take(n - 1));
        assert(all.last() == mates[n - 1]);
        let before = takers(mates, (n - 1) as nat);
        if mates[n - 1].bill > mates[n - 1].purse {
            assert(takers(mates, n).map_values(g) =~= before.map_values(g).push(f(mates[n - 1])));
            assert(all.filter(p).map_values(f) =~= mates.take(n - 1).filter(p).map_values(f).push(
                f(mates[n - 1]),
            ));
        }
    }
    assert(takers(mates, n).map_values(g) =~= all.filter(p).map_values(f));
}

/// Those with money to give are the ones whose purse is more than their bill, by
/// as much as it is more; those that lack it the ones whose bill is more.
pub proof fn law_who_has_money_over_and_who_lacks_it(mates: Seq<Supplies>)
    ensures
        givers(mates, mates.len()).map_values(|s: Stake| (s.name, s.amount as int))
            == mates.filter(|m: Supplies| m.purse > m.bill).map_values(
            |m: Supplies| (m.name, m.purse - m.bill),
        ),
        takers(mates, mates.len()).map_values(|s: Stake| (s.name, s.amount as int))
            == mates.filter(|m: Supplies| m.bill > m.purse).map_values(
            |m: Supplies| (m.name, m.bill - m.purse),
        ),
{
    lemma_has_over(mates, mates.len());
    lemma_lacks(mates, mates.len());
    assert(mates.take(mates.len() as int) =~= mates);
}

/// A switch is told as it is: to what, and why.
pub proof fn law_a_switch_is_told_as_it_is(r: Option<Switch>)
    ensures
        r is None <==> said_switch(r) is None,
        r is Some ==> said_switch(r) == Some((r->0.mode, r->0.because@)),
{
}

/// Why a member wants to go to town: its pack before its load, its load before its
/// loot, and its loot before its supplies.
pub proof fn law_why_a_member_wants_town(m: Supplies)
    ensures
        m.pack_full ==> reason(m) == m.name@ + "'s pack is full"@,
        !m.pack_full && m.laden ==> reason(m) == m.name@
            + " is carrying as much as it means to"@,
        !m.pack_full && !m.laden && m.sale ==> reason(m) == m.name@
            + " is carrying loot for a counter"@,
        !m.pack_full && !m.laden && !m.sale ==> reason(m) == m.name@ + " is down to "@ + shown(
            m.level.product(Single { bits: 0x42c8_0000 }),
        ) + "% supplies"@,
{
}

} // verus!
