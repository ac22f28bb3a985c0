//! What holds of a party's restocking as a whole.

use crate::logistics::{
    added, all_settled, asked, covered, dealt, decided, givers, handed, lemma_asked, lemma_dealt,
    less, loaded, outranks, runner, somebody_wants_town, sum_of, takers, GroupMode, Restock,
    Stage, Stake, Supplies, Transfer, APART, LATEST, WHOLE,
};
use crate::order::{arranged, put_in, Ranked};
use crate::single::{
    digits, lemma_exact, lemma_next, lemma_rounding_keeps_order, lemma_some_nearest,
    lemma_units_increase, nearest, scale, units, Single,
};
use crate::text::{lemma_precedes_irreflexive, lemma_precedes_total, lemma_precedes_transitive};
use vstd::arithmetic::power2::{
    lemma_pow2_adds, lemma_pow2_pos, lemma_pow2_strictly_increases, pow2,
};
use vstd::prelude::*;

verus! {

proof fn lemma_outranks_transitive(a: Supplies, b: Supplies, c: Supplies)
    requires
        !outranks(a, b),
        !outranks(b, c),
    ensures
        !outranks(a, c),
{
    if a.free_space == c.free_space && a.purse == c.purse && precedes_name(a, c) {
        if !precedes_name(c, b) {
            if precedes_name(b, c) {
            } else {
                lemma_precedes_total(c.name@, b.name@);
            }
        } else {
            lemma_precedes_transitive(a.name@, c.name@, b.name@);
        }
    }
}

spec fn precedes_name(a: Supplies, b: Supplies) -> bool {
    crate::text::precedes(a.name@, b.name@)
}

proof fn lemma_runner(mates: Seq<Supplies>, n: nat)
    requires
        n <= mates.len(),
    ensures
        match runner(mates, n) {
            Some(i) => {
                &&& 0 <= i < n
                &&& mates[i].name@.len() > 0
                &&& forall|j: int|
                    0 <= j < n && (#[trigger] mates[j]).name@.len() > 0 ==> !outranks(
                        mates[j],
                        mates[i],
                    )
            },
            None => forall|j: int| 0 <= j < n ==> (#[trigger] mates[j]).name@.len() == 0,
        },
    decreases n,
{
    if n > 0 {
        let i = n - 1;
        lemma_runner(mates, i as nat);
        let best = runner(mates, i as nat);
        lemma_precedes_irreflexive(mates[i].name@);
        if mates[i].name@.len() > 0 && best is Some {
            let b = best->0;
            if outranks(mates[b], mates[i]) {
                lemma_asymmetric(mates[b], mates[i]);
            } else {
                assert forall|j: int|
                    0 <= j < n && (#[trigger] mates[j]).name@.len() > 0 implies !outranks(
                    mates[j],
                    mates[i],
                ) by {
                    if j < i {
                        lemma_outranks_transitive(mates[j], mates[b], mates[i]);
                    }
                }
            }
        }
    }
}

proof fn lemma_asymmetric(a: Supplies, b: Supplies)
    requires
        outranks(a, b),
    ensures
        !outranks(b, a),
{
    if precedes_name(a, b) && precedes_name(b, a) {
        lemma_precedes_transitive(a.name@, b.name@, a.name@);
        lemma_precedes_irreflexive(a.name@);
    }
}

/// The quartermaster is a member with a name that no other member with a name
/// outranks; there is none only where nobody has a name.
pub proof fn law_quartermaster_is_the_best(mates: Seq<Supplies>)
    ensures
        match runner(mates, mates.len()) {
            Some(i) => {
                &&& 0 <= i < mates.len()
                &&& mates[i].name@.len() > 0
                &&& forall|j: int|
                    0 <= j < mates.len() && (#[trigger] mates[j]).name@.len() > 0 ==> !outranks(
                        mates[j],
                        mates[i],
                    )
            },
            None => forall|j: int| 0 <= j < mates.len() ==> (#[trigger] mates[j]).name@.len() == 0,
        },
{
    lemma_runner(mates, mates.len());
}

proof fn lemma_found(a: Seq<Supplies>, b: Seq<Supplies>, i: int) -> (k: int)
    requires
        a.to_multiset() == b.to_multiset(),
        0 <= i < b.len(),
    ensures
        0 <= k < a.len(),
        a[k] == b[i],
{
    a.to_multiset_ensures();
    b.to_multiset_ensures();
    assert(b.contains(b[i]));
    assert(a.to_multiset().count(b[i]) > 0);
    assert(a.contains(b[i]));
    choose|k: int| 0 <= k < a.len() && a[k] == b[i]
}

/// Every session picks the same quartermaster, in whatever order it holds the
/// roster.
pub proof fn law_quartermaster_whatever_the_order(a: Seq<Supplies>, b: Seq<Supplies>)
    requires
        a.to_multiset() == b.to_multiset(),
    ensures
        runner(a, a.len()) is Some <==> runner(b, b.len()) is Some,
        runner(a, a.len()) is Some ==> {
            let p = a[runner(a, a.len())->0];
            let q = b[runner(b, b.len())->0];
            p.name@ == q.name@ && p.free_space == q.free_space && p.purse == q.purse
        },
{
    lemma_runner(a, a.len());
    lemma_runner(b, b.len());
    if runner(a, a.len()) is Some {
        let i = runner(a, a.len())->0;
        let k = lemma_found(b, a, i);
        assert(b[k].name@.len() > 0);
        let j = runner(b, b.len())->0;
        let l = lemma_found(a, b, j);
        assert(!outranks(b[k], b[j]));
        assert(!outranks(a[l], a[i]));
        lemma_precedes_total(a[i].name@, b[j].name@);
    } else if runner(b, b.len()) is Some {
        let j = runner(b, b.len())->0;
        let l = lemma_found(a, b, j);
        assert(a[l].name@.len() == 0);
    }
}

/// Nobody shares a name.
pub open spec fn names_apart(mates: Seq<Supplies>) -> bool {
    forall|i: int, j: int|
        0 <= i < j < mates.len() ==> (#[trigger] mates[i]).name@ != (#[trigger] mates[j]).name@
}

proof fn lemma_same_runner(a: Seq<Supplies>, b: Seq<Supplies>)
    requires
        a.to_multiset() == b.to_multiset(),
        names_apart(a),
        runner(a, a.len()) is Some,
    ensures
        runner(b, b.len()) is Some,
        a[runner(a, a.len())->0] == b[runner(b, b.len())->0],
{
    law_quartermaster_whatever_the_order(a, b);
    lemma_runner(a, a.len());
    lemma_runner(b, b.len());
    let i = runner(a, a.len())->0;
    let j = runner(b, b.len())->0;
    let l = lemma_found(a, b, j);
    assert(a[l].name@ == a[i].name@);
    if l != i {
        if l < i {
            assert(a[l].name@ != a[i].name@);
        } else {
            assert(a[i].name@ != a[l].name@);
        }
    }
}

proof fn lemma_same_answers(a: Seq<Supplies>, b: Seq<Supplies>, cfg: Restock, name: Seq<char>)
    requires
        a.to_multiset() == b.to_multiset(),
    ensures
        all_settled(a) ==> all_settled(b),
        loaded(a, name) ==> loaded(b, name),
        somebody_wants_town(a, cfg) ==> somebody_wants_town(b, cfg),
{
    if all_settled(a) {
        assert forall|i: int| 0 <= i < b.len() implies (#[trigger] b[i]).spec_settled() by {
            let k = lemma_found(a, b, i);
        }
    }
    if loaded(a, name) {
        assert forall|i: int| 0 <= i < b.len() implies (#[trigger] b[i]).name@ == name
            || b[i].handed_over by {
            let k = lemma_found(a, b, i);
        }
    }
    if somebody_wants_town(a, cfg) {
        let i = choose|i: int| 0 <= i < a.len() && (#[trigger] a[i]).spec_wants_town(cfg);
        let k = lemma_found(b, a, i);
        assert(b[k].spec_wants_town(cfg));
    }
}

/// Every session of a party reaches the same mode from the same roster, in
/// whatever order it holds it.
pub proof fn law_one_mode_for_all(
    now: GroupMode,
    a: Seq<Supplies>,
    b: Seq<Supplies>,
    cfg: Restock,
    round: u32,
)
    requires
        a.to_multiset() == b.to_multiset(),
        names_apart(a),
    ensures
        decided(now, a, cfg, round) is Some <==> decided(now, b, cfg, round) is Some,
        decided(now, a, cfg, round) is Some ==> {
            let (here, _) = decided(now, a, cfg, round)->0;
            let (there, _) = decided(now, b, cfg, round)->0;
            here == there
        },
{
    a.to_multiset_ensures();
    b.to_multiset_ensures();
    assert(a.len() == b.len());
    let name = a[runner(a, a.len())->0].name@;
    lemma_same_answers(a, b, cfg.sound(), name);
    lemma_same_answers(b, a, cfg.sound(), name);
    law_quartermaster_whatever_the_order(a, b);
    if runner(a, a.len()) is Some {
        lemma_same_runner(a, b);
    }
}

/// A party whose members are all stocked as the policy asks, with room in
/// their packs and nothing to sell, does not leave for town.
pub proof fn law_a_stocked_party_stays_out(mates: Seq<Supplies>, cfg: Restock, round: u32)
    requires
        !cfg.go_at.nan(),
        !cfg.full_at.nan(),
        forall|i: int|
            0 <= i < mates.len() ==> !(#[trigger] mates[i]).pack_full && !mates[i].laden
                && !mates[i].sale && cfg.sound().full_at.at_most(mates[i].level),
    ensures
        decided(GroupMode::Hunting, mates, cfg, round) is None,
{
    law_home_bar_above_leaving_bar(cfg);
}

/// The bar for coming home sits above the bar for leaving, whatever the policy
/// says.
pub proof fn law_home_bar_above_leaving_bar(cfg: Restock)
    requires
        !cfg.go_at.nan(),
        !cfg.full_at.nan(),
    ensures
        cfg.sound().go_at.below(cfg.sound().full_at),
        cfg.sound().full_at.at_most(Single { bits: WHOLE }),
{
    let low = cfg.leave_at();
    let step = Single { bits: APART };
    let m = low.magnitude();
    let t = units(m) + units(step.magnitude());
    let r = nearest(t, 1);
    lemma_step_up(m);
    assert(low.sum(step) == Single::of(false, r)) by {
        if low.negative() {
            // Only a nought can be negative here.
            assert(m == 0);
            vstd::arithmetic::power2::lemma2_to64();
        }
    }
}

/// One twentieth added to what is at most nineteen of them is a larger number,
/// and no more than one.
proof fn lemma_step_up(m: int)
    requires
        0 <= m <= LATEST,
    ensures
        m < nearest(
            units(m) + units(APART as int),
            1,
        ) <= WHOLE,
        units(m) + units(APART as int) > 0,
        units(m) >= 0,
{
    let step = APART as int;
    let t = units(m) + units(step);
    lemma_units_increase(0, m);
    lemma_units_increase(m, LATEST as int);
    let p = pow2(121);
    lemma_pow2_pos(121);
    lemma_pow2_adds(121, 4);
    lemma_pow2_adds(121, 5);
    vstd::arithmetic::power2::lemma2_to64();
    assert(scale(step) == 121 && digits(step) == 0xcccccd);
    assert(scale(LATEST as int) == 125 && digits(LATEST as int) == 0xf33333);
    assert(scale(WHOLE as int) == 126 && digits(WHOLE as int) == 0x800000);
    if scale(m) < 125 {
        lemma_pow2_strictly_increases(scale(m), 125);
    }
    assert(0xcccccd * p >= p * 16) by (nonlinear_arith)
        requires
            p > 0,
    ;
    assert(0xf33333 * (p * 16) + 0xcccccd * p <= 0x800000 * (p * 32)) by (nonlinear_arith)
        requires
            p > 0,
    ;
    lemma_next(m);
    lemma_exact(m + 1);
    lemma_exact(WHOLE as int);
    let r = lemma_some_nearest(t, 1);
    lemma_rounding_keeps_order(units(m + 1), m + 1, t, r, 1);
    lemma_rounding_keeps_order(t, r, units(WHOLE as int), WHOLE as int, 1);
}

/// What some hand-outs come to.
pub open spec fn given_out(s: Seq<(String, u32)>) -> int
    decreases s.len(),
{
    if s.len() == 0 {
        0
    } else {
        given_out(s.drop_last()) + s.last().1
    }
}

proof fn lemma_handed(who: Seq<Stake>, given: Seq<u32>, n: nat)
    requires
        n <= who.len(),
        who.len() == given.len(),
    ensures
        given_out(handed(who, given, n)) == added(given.take(n as int)),
        forall|k: int|
            0 <= k < handed(who, given, n).len() ==> {
                let line = #[trigger] handed(who, given, n)[k];
                line.1 > 0 && exists|i: int|
                    0 <= i < n && (#[trigger] who[i]).name == line.0 && given[i] == line.1
            },
    decreases n,
{
    if n > 0 {
        let m = (n - 1) as nat;
        lemma_handed(who, given, m);
        assert(given.take(n as int).drop_last() =~= given.take(m as int));
        let before = handed(who, given, m);
        let now = handed(who, given, n);
        if given[n - 1] > 0 {
            assert(now.drop_last() =~= before);
        }
        assert forall|k: int| 0 <= k < now.len() implies {
            let line = #[trigger] now[k];
            line.1 > 0 && exists|i: int|
                0 <= i < n && (#[trigger] who[i]).name == line.0 && given[i] == line.1
        } by {
            if k < before.len() {
                let line = before[k];
                let i = choose|i: int|
                    0 <= i < m && (#[trigger] who[i]).name == line.0 && given[i] == line.1;
                assert(who[i].name == now[k].0);
            } else {
                assert(who[n - 1].name == now[k].0);
            }
        }
    }
}

/// What the quartermaster brought is all handed out, up to what was asked for:
/// only those who asked are given any, and nobody more than it asked for.
pub proof fn law_hand_out(mates: Seq<Supplies>, item: Seq<char>, brought: u32)
    requires
        mates.len() <= usize::MAX,
    ensures
        ({
            let who = asked(mates, item, mates.len());
            let out = handed(who, dealt(who, brought), who.len());
            &&& given_out(out) == if brought < sum_of(who) {
                brought as int
            } else {
                sum_of(who)
            }
            &&& forall|k: int|
                0 <= k < out.len() ==> {
                    let line = #[trigger] out[k];
                    line.1 > 0 && exists|i: int|
                        0 <= i < who.len() && (#[trigger] who[i]).name == line.0 && line.1
                            <= who[i].amount
                }
        }),
{
    let who = asked(mates, item, mates.len());
    lemma_asked(mates, item, mates.len());
    let given = dealt(who, brought);
    lemma_dealt(who, brought);
    lemma_handed(who, given, who.len());
    assert(given.take(who.len() as int) =~= given);
    let out = handed(who, given, who.len());
    assert forall|k: int| 0 <= k < out.len() implies {
        let line = #[trigger] out[k];
        line.1 > 0 && exists|i: int|
            0 <= i < who.len() && (#[trigger] who[i]).name == line.0 && line.1 <= who[i].amount
    } by {
        let line = out[k];
        let i = choose|i: int|
            0 <= i < who.len() && (#[trigger] who[i]).name == line.0 && given[i] == line.1;
        assert(given[i] <= who[i].amount);
    }
}

/// What some transfers come to.
pub open spec fn moved(s: Seq<Transfer>) -> int
    decreases s.len(),
{
    if s.len() == 0 {
        0
    } else {
        s[0].amount + moved(s.drop_first())
    }
}

/// What some transfers take from `name`.
pub open spec fn moved_from(s: Seq<Transfer>, name: Seq<char>) -> int
    decreases s.len(),
{
    if s.len() == 0 {
        0
    } else {
        moved_from(s.drop_first(), name) + if s[0].from@ == name {
            s[0].amount as int
        } else {
            0
        }
    }
}

/// What some transfers bring `name`.
pub open spec fn moved_to(s: Seq<Transfer>, name: Seq<char>) -> int
    decreases s.len(),
{
    if s.len() == 0 {
        0
    } else {
        moved_to(s.drop_first(), name) + if s[0].to@ == name {
            s[0].amount as int
        } else {
            0
        }
    }
}

/// What some stakes hold under `name`.
pub open spec fn held_by(s: Seq<Stake>, name: Seq<char>) -> int
    decreases s.len(),
{
    if s.len() == 0 {
        0
    } else {
        held_by(s.drop_last(), name) + if s.last().name@ == name {
            s.last().amount as int
        } else {
            0
        }
    }
}

spec fn mine(x: Stake, name: Seq<char>) -> int {
    if x.name@ == name {
        x.amount as int
    } else {
        0
    }
}

proof fn lemma_sums_front(s: Seq<Stake>, name: Seq<char>)
    requires
        s.len() > 0,
    ensures
        sum_of(s) == s[0].amount + sum_of(s.drop_first()),
        held_by(s, name) == mine(s[0], name) + held_by(s.drop_first(), name),
    decreases s.len(),
{
    if s.len() == 1 {
        assert(s.drop_last() =~= seq![]);
        assert(s.drop_first() =~= seq![]);
    } else {
        lemma_sums_front(s.drop_last(), name);
        assert(s.drop_last().drop_first() =~= s.drop_first().drop_last());
    }
}

proof fn lemma_sums_nonnegative(s: Seq<Stake>, name: Seq<char>)
    ensures
        sum_of(s) >= 0,
        held_by(s, name) >= 0,
    decreases s.len(),
{
    if s.len() > 0 {
        lemma_sums_nonnegative(s.drop_last(), name);
    }
}

proof fn lemma_covered(g: Seq<Stake>, t: Seq<Stake>, name: Seq<char>)
    ensures
        moved(covered(g, t)) == if sum_of(g) < sum_of(t) {
            sum_of(g)
        } else {
            sum_of(t)
        },
        moved_from(covered(g, t), name) <= held_by(g, name),
        moved_to(covered(g, t), name) <= held_by(t, name),
        covered(g, t).len() <= if g.len() == 0 || t.len() == 0 {
            0
        } else {
            g.len() + t.len() - 1
        },
        g.len() > 0 && t.len() > 0 && (g[0].amount == 0 || t[0].amount == 0) ==> covered(g, t).len()
            <= g.len() + t.len() - 2,
    decreases
            g.len() + t.len(),
            if g.len() == 0 || t.len() == 0 {
                0
            } else {
                g[0].amount + t[0].amount
            },
{
    lemma_sums_nonnegative(g, name);
    lemma_sums_nonnegative(t, name);
    if g.len() == 0 || t.len() == 0 {
    } else {
        lemma_sums_front(g, name);
        lemma_sums_front(t, name);
        if t[0].amount == 0 {
            lemma_covered(g, t.drop_first(), name);
        } else if g[0].amount == 0 {
            lemma_covered(g.drop_first(), t, name);
        } else {
            let amount = if g[0].amount < t[0].amount {
                g[0].amount
            } else {
                t[0].amount
            };
            let h = less(g, amount as int);
            let u = less(t, amount as int);
            let rest = covered(h, u);
            let all = covered(g, t);
            assert(all.drop_first() =~= rest);
            lemma_sums_front(h, name);
            lemma_sums_front(u, name);
            assert(h.drop_first() =~= g.drop_first());
            assert(u.drop_first() =~= t.drop_first());
            lemma_covered(h, u, name);
        }
    }
}

proof fn lemma_sums_put_in(s: Seq<Stake>, x: Stake, name: Seq<char>)
    ensures
        sum_of(put_in(s, x)) == sum_of(s) + x.amount,
        held_by(put_in(s, x), name) == held_by(s, name) + mine(x, name),
    decreases s.len(),
{
    let r = put_in(s, x);
    if s.len() == 0 || !x.before(s.last()) {
        assert(r.drop_last() =~= s);
    } else {
        lemma_sums_put_in(s.drop_last(), x, name);
        assert(r.drop_last() =~= put_in(s.drop_last(), x));
    }
}

proof fn lemma_sums_arranged(s: Seq<Stake>, name: Seq<char>)
    ensures
        sum_of(arranged(s)) == sum_of(s),
        held_by(arranged(s), name) == held_by(s, name),
    decreases s.len(),
{
    if s.len() > 0 {
        lemma_sums_arranged(s.drop_last(), name);
        lemma_sums_put_in(arranged(s.drop_last()), s.last(), name);
    }
}

/// What the transfers of a party are.
pub open spec fn shared(mates: Seq<Supplies>) -> Seq<Transfer> {
    covered(arranged(givers(mates, mates.len())), arranged(takers(mates, mates.len())))
}

/// Handing money round moves as much as it can: all that somebody has over, or
/// all that somebody lacks, whichever is less.
pub proof fn law_share_money_covers_what_it_can(mates: Seq<Supplies>)
    ensures
        moved(shared(mates)) == if sum_of(givers(mates, mates.len())) < sum_of(
            takers(mates, mates.len()),
        ) {
            sum_of(givers(mates, mates.len()))
        } else {
            sum_of(takers(mates, mates.len()))
        },
{
    let g = givers(mates, mates.len());
    let t = takers(mates, mates.len());
    lemma_sums_arranged(g, seq![]);
    lemma_sums_arranged(t, seq![]);
    lemma_covered(arranged(g), arranged(t), seq![]);
}

/// Nobody gives away money it needs itself, and nobody is given more than it
/// lacks.
pub proof fn law_share_money_is_fair(mates: Seq<Supplies>, name: Seq<char>)
    ensures
        moved_from(shared(mates), name) <= held_by(givers(mates, mates.len()), name),
        moved_to(shared(mates), name) <= held_by(takers(mates, mates.len()), name),
{
    let g = givers(mates, mates.len());
    let t = takers(mates, mates.len());
    lemma_sums_arranged(g, name);
    lemma_sums_arranged(t, name);
    lemma_covered(arranged(g), arranged(t), name);
}

/// The party is settled in fewer handovers than there are members with too
/// much or too little.
pub proof fn law_share_money_takes_few_handovers(mates: Seq<Supplies>)
    ensures
        shared(mates).len() == 0 || shared(mates).len() < givers(mates, mates.len()).len()
            + takers(mates, mates.len()).len(),
{
    let g = givers(mates, mates.len());
    let t = takers(mates, mates.len());
    crate::order::lemma_arranged_keeps(g);
    crate::order::lemma_arranged_keeps(t);
    lemma_covered(arranged(g), arranged(t), seq![]);
}

/// Who gives and who takes in each handover, by their places in the two rows,
/// counted from `i` and `j`.
pub open spec fn places(g: Seq<Stake>, t: Seq<Stake>, i: int, j: int) -> Seq<(int, int)>
    decreases
            g.len() + t.len(),
            if g.len() == 0 || t.len() == 0 {
                0
            } else {
                g[0].amount + t[0].amount
            },
{
    if g.len() == 0 || t.len() == 0 {
        seq![]
    } else if t[0].amount == 0 {
        places(g, t.drop_first(), i, j + 1)
    } else if g[0].amount == 0 {
        places(g.drop_first(), t, i + 1, j)
    } else {
        let amount = if g[0].amount < t[0].amount {
            g[0].amount
        } else {
            t[0].amount
        };
        seq![(i, j)] + places(less(g, amount as int), less(t, amount as int), i, j)
    }
}

/// One handover comes before another: neither giver nor taker goes back in its
/// row, and one of them goes on.
pub open spec fn comes_before(a: (int, int), b: (int, int)) -> bool {
    a.0 <= b.0 && a.1 <= b.1 && a != b
}

/// Handovers of something, each between those its places say, and in order.
pub open spec fn well_listed(
    moves: Seq<Transfer>,
    at: Seq<(int, int)>,
    g: Seq<Stake>,
    t: Seq<Stake>,
    i: int,
    j: int,
) -> bool {
    &&& moves.len() == at.len()
    &&& forall|k: int|
        0 <= k < at.len() ==> {
            &&& i <= (#[trigger] at[k]).0 < i + g.len()
            &&& j <= at[k].1 < j + t.len()
            &&& moves[k].from == g[at[k].0 - i].name
            &&& moves[k].to == t[at[k].1 - j].name
            &&& moves[k].amount > 0
        }
    &&& forall|k: int, l: int|
        0 <= k < l < at.len() ==> comes_before(#[trigger] at[k], #[trigger] at[l])
}

proof fn lemma_well_listed(g: Seq<Stake>, t: Seq<Stake>, i: int, j: int)
    ensures
        well_listed(covered(g, t), places(g, t, i, j), g, t, i, j),
        g.len() > 0 && t.len() > 0 && (g[0].amount == 0 || t[0].amount == 0) ==> forall|k: int|
            0 <= k < places(g, t, i, j).len() ==> #[trigger] places(g, t, i, j)[k] != (i, j),
    decreases
            g.len() + t.len(),
            if g.len() == 0 || t.len() == 0 {
                0
            } else {
                g[0].amount + t[0].amount
            },
{
    let at = places(g, t, i, j);
    let moves = covered(g, t);
    if g.len() == 0 || t.len() == 0 {
    } else if t[0].amount == 0 {
        lemma_well_listed(g, t.drop_first(), i, j + 1);
        assert forall|k: int| 0 <= k < at.len() implies {
            &&& i <= (#[trigger] at[k]).0 < i + g.len()
            &&& j < at[k].1 < j + t.len()
            &&& moves[k].to == t[at[k].1 - j].name
        } by {
            assert(t.drop_first()[at[k].1 - (j + 1)] == t[at[k].1 - j]);
        }
    } else if g[0].amount == 0 {
        lemma_well_listed(g.drop_first(), t, i + 1, j);
        assert forall|k: int| 0 <= k < at.len() implies {
            &&& i < (#[trigger] at[k]).0 < i + g.len()
            &&& j <= at[k].1 < j + t.len()
            &&& moves[k].from == g[at[k].0 - i].name
        } by {
            assert(g.drop_first()[at[k].0 - (i + 1)] == g[at[k].0 - i]);
        }
    } else {
        let amount = if g[0].amount < t[0].amount {
            g[0].amount
        } else {
            t[0].amount
        };
        let (g2, t2) = (less(g, amount as int), less(t, amount as int));
        lemma_well_listed(g2, t2, i, j);
        let rest = places(g2, t2, i, j);
        let more = covered(g2, t2);
        assert forall|k: int| 0 <= k < at.len() implies {
            &&& i <= (#[trigger] at[k]).0 < i + g.len()
            &&& j <= at[k].1 < j + t.len()
            &&& moves[k].from == g[at[k].0 - i].name
            &&& moves[k].to == t[at[k].1 - j].name
            &&& moves[k].amount > 0
        } by {
            if k > 0 {
                assert(at[k] == rest[k - 1]);
                assert(moves[k] == more[k - 1]);
            }
        }
        assert forall|k: int, l: int| 0 <= k < l < at.len() implies comes_before(
            #[trigger] at[k],
            #[trigger] at[l],
        ) by {
            assert(at[l] == rest[l - 1]);
            if k > 0 {
                assert(at[k] == rest[k - 1]);
            }
        }
    }
}

/// Every handover is of something, from one that has some over to one that
/// lacks some, and they are listed in the order of the two rows, those with most
/// first: no giver hands the same taker money twice.
pub proof fn law_share_money_lists_each_pair_once(mates: Seq<Supplies>)
    ensures
        well_listed(
            shared(mates),
            places(
                arranged(givers(mates, mates.len())),
                arranged(takers(mates, mates.len())),
                0,
                0,
            ),
            arranged(givers(mates, mates.len())),
            arranged(takers(mates, mates.len())),
            0,
            0,
        ),
{
    lemma_well_listed(
        arranged(givers(mates, mates.len())),
        arranged(takers(mates, mates.len())),
        0,
        0,
    );
}

/// A quartermaster's last round ends the trip: with the rounds used up it is
/// not sent out again.
pub proof fn law_rounds_end(mates: Seq<Supplies>, cfg: Restock, round: u32)
    requires
        round + 1 >= cfg.max_rounds,
    ensures
        match decided(GroupMode::Restocking(Stage::HandOut), mates, cfg, round) {
            Some((mode, _)) => mode == GroupMode::Hunting,
            None => mates.len() == 0 || runner(mates, mates.len()) is None || mates[runner(
                mates,
                mates.len(),
            )->0].holding_orders,
        },
{
}

} // verus!
