//! What holds of what a character says of itself to its party.

use crate::clock::{spec_seconds, spec_since, Moment};
use crate::config::{Growth, Team};
use crate::logistics::{decided, spec_line_level, GroupMode, Plan, Stage, Supplies};
use crate::orders::Deed;
use crate::party::{
    bill_of, is_mode, is_report, order_of, ordered, shortfall_of, spec_holding_orders,
    spec_quartermaster_name, spec_rough_cost, worst_level, worth_from, ClassWant, Mate, Report,
};
use crate::single::{
    lemma_rounding_keeps_order, lemma_some_nearest, lemma_units_increase, rounds_to, units, Single,
};
use crate::single_laws::{lemma_exact_over, lemma_nought, lemma_one, lemma_whole};
use crate::state::State;
use crate::sums::total;
use crate::text::alike;
use crate::things::Thing;
use crate::trip_laws::{law_who_shops_for_the_party, shops_rather};
use crate::wares::Need;
use vstd::arithmetic::power2::{lemma_pow2_pos, pow2};
use vstd::prelude::*;

verus! {

/// What is held of a line over what is kept of it.
pub open spec fn held_over_kept(have: u32, keep: u32) -> Single {
    Single::whole(have as int).quotient(Single::whole(keep as int))
}

/// How a line reads goes by how much of it is held: a line that keeps some reads
/// what is held over what is kept, 1 at most; it reads full when as much is held
/// as is kept and empty when nothing is; one that keeps none reads full.
pub proof fn law_a_line_reads_what_is_held_of_it(have: u32, keep: u32)
    ensures
        keep == 0 ==> spec_line_level(have, keep) == (Single { bits: 0x3f80_0000 }),
        keep > 0 && have >= keep ==> spec_line_level(have, keep) == (Single { bits: 0x3f80_0000 }),
        keep > 0 && have <= keep ==> spec_line_level(have, keep) == held_over_kept(have, keep),
        keep > 0 && have == 0 ==> spec_line_level(have, keep) == (Single { bits: 0 }),
        !spec_line_level(have, keep).nan(),
        keep > 0 ==> !held_over_kept(have, keep).nan(),
        keep > 0 ==> spec_line_level(have, keep).at_most(held_over_kept(have, keep)),
        spec_line_level(have, keep).at_most(Single { bits: 0x3f80_0000 }),
        (Single { bits: 0 }).at_most(spec_line_level(have, keep)),
{
    if keep > 0 {
        let one: int = 0x3f80_0000;
        let x = lemma_whole(have as int);
        let y = lemma_whole(keep as int);
        let p = pow2(149) as int;
        lemma_pow2_pos(149);
        lemma_units_increase(0, x);
        lemma_units_increase(0, y);
        let d = units(y);
        assert(d > 0);
        let r = lemma_some_nearest(units(x) * p, d);
        assert(held_over_kept(have, keep) == Single::of(false, r));
        lemma_one();
        lemma_exact_over(one, d);
        assert(units(one) * d == d * p) by (nonlinear_arith)
            requires
                units(one) == p,
        ;
        if have >= keep {
            assert(have * p >= keep * p) by (nonlinear_arith)
                requires
                    have >= keep,
                    p > 0,
            ;
            lemma_rounding_keeps_order(keep * p, y, have * p, x, 1);
            lemma_units_increase(y, x);
            assert(units(x) * p >= d * p) by (nonlinear_arith)
                requires
                    units(x) >= d,
                    p > 0,
            ;
            lemma_rounding_keeps_order(units(one) * d, one, units(x) * p, r, d);
        }
        if have <= keep {
            assert(have * p <= keep * p) by (nonlinear_arith)
                requires
                    have <= keep,
                    p > 0,
            ;
            lemma_rounding_keeps_order(have * p, x, keep * p, y, 1);
            lemma_units_increase(x, y);
            assert(units(x) * p <= d * p) by (nonlinear_arith)
                requires
                    units(x) <= d,
                    p > 0,
            ;
            lemma_rounding_keeps_order(units(x) * p, r, units(one) * d, one, d);
        }
        if have == 0 {
            lemma_exact_over(0, d);
            lemma_nought();
            lemma_rounding_keeps_order(units(x) * p, r, units(0) * d, 0, d);
        }
    }
}

/// What is held over what is kept stands where rounding puts it.
proof fn lemma_over(have: u32, keep: u32) -> (r: int)
    requires
        keep > 0,
    ensures
        held_over_kept(have, keep) == Single::of(false, r),
        0 <= r <= 0x7f80_0000,
        units(Single::whole(keep as int).magnitude()) > 0,
        rounds_to(
            units(Single::whole(have as int).magnitude()) * pow2(149),
            units(Single::whole(keep as int).magnitude()),
            r,
        ),
{
    let x = lemma_whole(have as int);
    let y = lemma_whole(keep as int);
    lemma_pow2_pos(149);
    lemma_units_increase(0, x);
    lemma_units_increase(0, y);
    lemma_some_nearest(units(x) * pow2(149), units(y))
}

/// Of two lines that keep as much, the one that holds more reads no lower.
pub proof fn law_more_held_reads_no_lower(have: u32, more: u32, keep: u32)
    requires
        have <= more,
    ensures
        spec_line_level(have, keep).at_most(spec_line_level(more, keep)),
{
    if keep > 0 {
        let r = lemma_over(have, keep);
        let q = lemma_over(more, keep);
        assert(r <= q) by {
            let x = lemma_whole(have as int);
            let z = lemma_whole(more as int);
            let p = pow2(149) as int;
            lemma_pow2_pos(149);
            assert(have * p <= more * p) by (nonlinear_arith)
                requires
                    have <= more,
                    p > 0,
            ;
            lemma_rounding_keeps_order(have * p, x, more * p, z, 1);
            lemma_units_increase(x, z);
            assert(units(x) * p <= units(z) * p) by (nonlinear_arith)
                requires
                    units(x) <= units(z),
                    p > 0,
            ;
            let d = units(Single::whole(keep as int).magnitude());
            lemma_rounding_keeps_order(units(x) * p, r, units(z) * p, q, d);
        }
        assert(Single::of(false, r).rank() == r);
        assert(Single::of(false, q).rank() == q);
    }
}

/// A number is the worst level of some needs: it is at most what every line that
/// can be bought holds over what it keeps, and it is 1, or what one of those
/// lines holds over what it keeps.
pub open spec fn is_worst(needs: Seq<Need>, level: Single) -> bool {
    &&& forall|i: int|
        0 <= i < needs.len() && (#[trigger] needs[i]).buyable && needs[i].keep > 0 ==> level.at_most(
            held_over_kept(needs[i].have, needs[i].keep),
        )
    &&& level.at_most(Single { bits: 0x3f80_0000 })
    &&& level == (Single { bits: 0x3f80_0000 }) || exists|i: int|
        0 <= i < needs.len() && (#[trigger] needs[i]).buyable && needs[i].keep > 0 && level
            == held_over_kept(needs[i].have, needs[i].keep)
}

proof fn lemma_worst(needs: Seq<Need>, n: nat)
    requires
        n <= needs.len(),
    ensures
        is_worst(needs.take(n as int), worst_level(needs, n)),
    decreases n,
{
    if n > 0 {
        lemma_worst(needs, (n - 1) as nat);
        let before = needs.take(n - 1);
        let some = needs.take(n as int);
        let was = worst_level(needs, (n - 1) as nat);
        let now = worst_level(needs, n);
        let last = needs[n - 1];
        law_a_line_reads_what_is_held_of_it(last.have, last.keep);
        assert(some[n - 1] == last);
        assert forall|i: int|
            0 <= i < some.len() && (#[trigger] some[i]).buyable && some[i].keep
                > 0 implies now.at_most(held_over_kept(some[i].have, some[i].keep)) by {
            if i < n - 1 {
                assert(before[i] == some[i]);
                assert(was.at_most(held_over_kept(some[i].have, some[i].keep)));
            }
        }
        if now != (Single { bits: 0x3f80_0000 }) {
            if now == was {
                let i = choose|i: int|
                    0 <= i < before.len() && (#[trigger] before[i]).buyable && before[i].keep > 0
                        && was == held_over_kept(before[i].have, before[i].keep);
                assert(some[i] == before[i]);
            } else {
                assert(now == spec_line_level(last.have, last.keep));
                assert(some[n - 1].buyable);
            }
        }
    }
}

/// The worst level of some needs is the worst: no line that can be bought is
/// emptier, and it is 1 or the level of one of them.
pub proof fn law_the_worst_line_is_the_worst(needs: Seq<Need>)
    ensures
        is_worst(needs, worst_level(needs, needs.len())),
{
    lemma_worst(needs, needs.len());
    assert(needs.take(needs.len() as int) =~= needs);
}

/// The level a character reports is that of its worst line that can be bought: no
/// such line is emptier, and it is 1 or the level of one of them.
pub proof fn law_the_level_is_that_of_the_worst_line(r: Report, cfg: Growth, s: Supplies)
    requires
        is_report(r, cfg, s),
    ensures
        is_worst(r.needs@, s.level),
{
    law_the_worst_line_is_the_worst(r.needs@);
}

/// The first thing of a name, letters great or small, that is worth anything says
/// what one of it is worth; where there is none it is taken to be worth nothing.
pub open spec fn is_worth(things: Seq<Thing>, name: Seq<char>, worth: u32) -> bool {
    ||| worth == 0 && forall|i: int|
        0 <= i < things.len() && alike((#[trigger] things[i]).name@, name) ==> things[i].value == 0
    ||| exists|i: int|
        0 <= i < things.len() && alike((#[trigger] things[i]).name@, name) && things[i].value
            == worth && worth > 0 && forall|k: int|
            0 <= k < i && alike((#[trigger] things[k]).name@, name) ==> things[k].value == 0
}

proof fn lemma_worth(things: Seq<Thing>, name: Seq<char>, i: int)
    requires
        0 <= i <= things.len(),
        forall|k: int|
            0 <= k < i && alike((#[trigger] things[k]).name@, name) ==> things[k].value == 0,
    ensures
        is_worth(things, name, worth_from(things, name, i)),
    decreases things.len() - i,
{
    if i < things.len() && !(alike(things[i].name@, name) && things[i].value > 0) {
        lemma_worth(things, name, i + 1);
    }
}

/// A need costs what one is worth for each that is wanted, held to what can be
/// counted.
pub proof fn law_a_need_costs_what_it_wants(things: Seq<Thing>, need: Need, worth: u32)
    requires
        is_worth(things, need.name@, worth),
    ensures
        worth * need.want <= u32::MAX ==> spec_rough_cost(things, need) == worth * need.want,
        worth * need.want > u32::MAX ==> spec_rough_cost(things, need) == u32::MAX,
{
    let name = need.name@;
    lemma_worth(things, name, 0);
    let other = worth_from(things, name, 0);
    if worth > 0 {
        let i = choose|i: int|
            0 <= i < things.len() && alike((#[trigger] things[i]).name@, name) && things[i].value
                == worth && worth > 0 && forall|k: int|
                0 <= k < i && alike((#[trigger] things[k]).name@, name) ==> things[k].value == 0;
        assert(other > 0);
        let j = choose|j: int|
            0 <= j < things.len() && alike((#[trigger] things[j]).name@, name) && things[j].value
                == other && other > 0 && forall|k: int|
                0 <= k < j && alike((#[trigger] things[k]).name@, name) ==> things[k].value == 0;
        assert(i == j);
    } else if other > 0 {
        let j = choose|j: int|
            0 <= j < things.len() && alike((#[trigger] things[j]).name@, name) && things[j].value
                == other && other > 0 && forall|k: int|
                0 <= k < j && alike((#[trigger] things[k]).name@, name) ==> things[k].value == 0;
        assert(things[j].value == 0);
    }
    assert(other == worth);
    assert(worth * need.want >= 0) by (nonlinear_arith)
        requires
            worth >= 0,
            need.want >= 0,
    ;
}

proof fn lemma_bill(things: Seq<Thing>, needs: Seq<Need>, n: nat)
    requires
        n <= needs.len(),
    ensures
        bill_of(things, needs, n) == total(
            needs.take(n as int).map_values(|x: Need| spec_rough_cost(things, x) as int),
        ),
    decreases n,
{
    let f = |x: Need| spec_rough_cost(things, x) as int;
    if n > 0 {
        lemma_bill(things, needs, (n - 1) as nat);
        assert(needs.take(n as int).map_values(f).drop_last() =~= needs.take(n - 1).map_values(f));
    }
}

proof fn lemma_order(needs: Seq<Need>, n: nat)
    requires
        n <= needs.len(),
    ensures
        order_of(needs, n) == needs.take(n as int).filter(
            |x: Need| x.buyable && x.want > 0,
        ).map_values(|x: Need| (x.name, x.want)),
    decreases n,
{
    reveal(Seq::filter);
    let p = |x: Need| x.buyable && x.want > 0;
    let f = |x: Need| (x.name, x.want);
    let all = needs.take(n as int);
    if n == 0 {
        assert(order_of(needs, n) =~= all.filter(p).map_values(f));
    } else {
        lemma_order(needs, (n - 1) as nat);
        assert(all.drop_last() =~= needs.take(n - 1));
        assert(all.last() == needs[n - 1]);
        assert(order_of(needs, n) =~= all.filter(p).map_values(f));
    }
}

/// A character's report says what it is: it orders every line that can be bought
/// and wants some, it bills what all its lines come to, it is stocked when its
/// worst line is full enough and it is not on a run, it is broke when it is short
/// of something with nothing to pay or after a trip that got nothing, and the rest
/// it hands on as it was told.
pub proof fn law_a_report_says_how_things_stand(r: Report, cfg: Growth, s: Supplies)
    requires
        is_report(r, cfg, s),
        bill_of(r.things@, r.needs@, r.needs@.len()) <= u32::MAX,
    ensures
        s.order@ == r.needs@.filter(|x: Need| x.buyable && x.want > 0).map_values(
            |x: Need| (x.name, x.want),
        ),
        s.bill == total(r.needs@.map_values(|x: Need| spec_rough_cost(r.things@, x) as int)),
        s.stocked <==> r.policy.sound().full_at.at_most(s.level) && !r.on_a_run,
        r.needs@.len() == 0 ==> !s.broke,
        r.needs@.len() > 0 && r.spendable == 0 ==> s.broke,
        r.needs@.len() > 0 && r.futile ==> s.broke,
        r.spendable > 0 && !r.futile ==> !s.broke,
        s.name == r.name && s.pack_full == r.pack_full && s.laden == r.laden,
        s.purse == r.spendable && s.free_space == r.room_anywhere,
        s.handed_over == r.handed_over && s.holding_orders == r.holding_orders,
{
    let n = r.needs@.len();
    lemma_bill(r.things@, r.needs@, n);
    lemma_order(r.needs@, n);
    assert(r.needs@.take(n as int) =~= r.needs@);
    lemma_total_is_not_negative(r.things@, r.needs@);
}

proof fn lemma_total_is_not_negative(things: Seq<Thing>, needs: Seq<Need>)
    ensures
        total(needs.map_values(|x: Need| spec_rough_cost(things, x) as int)) >= 0,
    decreases needs.len(),
{
    let f = |x: Need| spec_rough_cost(things, x) as int;
    if needs.len() > 0 {
        lemma_total_is_not_negative(things, needs.drop_last());
        assert(needs.map_values(f).drop_last() =~= needs.drop_last().map_values(f));
    }
}

/// What one need comes to for the shopping rules.
pub open spec fn class_want(need: Need) -> ClassWant {
    ClassWant {
        wcid: need.kind->Component_0,
        name: need.name,
        short: need.want,
        urgent: need.urgent,
    }
}

proof fn lemma_shortfall(needs: Seq<Need>, n: nat)
    requires
        n <= needs.len(),
    ensures
        shortfall_of(needs, n) == needs.take(n as int).filter(
            |x: Need| x.kind is Component && x.buyable && x.want > 0,
        ).map_values(|x: Need| class_want(x)),
    decreases n,
{
    reveal(Seq::filter);
    let p = |x: Need| x.kind is Component && x.buyable && x.want > 0;
    let f = |x: Need| class_want(x);
    let all = needs.take(n as int);
    if n == 0 {
        assert(shortfall_of(needs, n) =~= all.filter(p).map_values(f));
    } else {
        lemma_shortfall(needs, (n - 1) as nat);
        assert(all.drop_last() =~= needs.take(n - 1));
        assert(all.last() == needs[n - 1]);
        assert(shortfall_of(needs, n) =~= all.filter(p).map_values(f));
    }
}

/// The shopping rules are told of every component that is short and can be
/// bought, in order, and of nothing else.
pub proof fn law_the_shopping_rules_hear_of_components(needs: Seq<Need>)
    ensures
        shortfall_of(needs, needs.len()) == needs.filter(
            |x: Need| x.kind is Component && x.buyable && x.want > 0,
        ).map_values(|x: Need| class_want(x)),
{
    lemma_shortfall(needs, needs.len());
    assert(needs.take(needs.len() as int) =~= needs);
}

/// A character alone, or in a team that does not restock together, is hunting,
/// and nothing is said of it.
pub proof fn law_a_character_alone_hunts(
    before: State,
    after: State,
    team: Team,
    party: Seq<Supplies>,
    mates: nat,
    now: Moment,
    given: Seq<Deed>,
    orders: Seq<Deed>,
)
    requires
        is_mode(before, after, team, party, mates, now, given, orders),
        mates == 0 || !team.enabled || !team.restock.together,
    ensures
        after.mode is Hunting,
        orders == given,
        after.round == before.round,
        after.mode_since == before.mode_since,
{
}

/// A trip that has taken longer than a team gives it ends: the party hunts again,
/// from now, with nothing handed over and no round made.
pub proof fn law_a_trip_is_given_up_in_time(
    before: State,
    after: State,
    team: Team,
    party: Seq<Supplies>,
    mates: nat,
    now: Moment,
    given: Seq<Deed>,
    orders: Seq<Deed>,
)
    requires
        is_mode(before, after, team, party, mates, now, given, orders),
        mates > 0 && team.enabled && team.restock.together,
        before.mode is Restocking,
        before.mode_since is Some,
        (Single { bits: 0 }).below(team.restock.give_up_after),
        team.restock.give_up_after.below(spec_seconds(spec_since(now, before.mode_since->0))),
    ensures
        after.mode is Hunting,
        after.mode_since == Some(now),
        after.round == 0,
        !after.handed_over,
        orders.len() == given.len() + 1,
        orders.take(given.len() as int) == given,
{
    assert(orders.take(given.len() as int) =~= given);
}

/// Whenever a party's mode is changed the change is timed and told, and what was
/// handed over counts no longer. Back to hunting the rounds begin again; from one
/// trip straight to the next is one round more; setting out is none.
pub proof fn law_a_change_of_mode_begins_afresh(
    before: State,
    after: State,
    team: Team,
    party: Seq<Supplies>,
    mates: nat,
    now: Moment,
    given: Seq<Deed>,
    orders: Seq<Deed>,
)
    requires
        is_mode(before, after, team, party, mates, now, given, orders),
        mates > 0 && team.enabled && team.restock.together,
        before.round < u32::MAX,
    ensures
        after.mode != before.mode ==> {
            &&& after.mode_since == Some(now)
            &&& !after.handed_over
            &&& orders.len() == given.len() + 1
            &&& after.mode is Hunting ==> after.round == 0
            &&& before.mode is Restocking && after.mode == GroupMode::Restocking(Stage::HandOver)
                ==> after.round == before.round + 1
            &&& after.mode is Restocking && !(before.mode is Restocking && after.mode
                == GroupMode::Restocking(Stage::HandOver)) ==> after.round == before.round
        },
        orders == given ==> after == before,
{
    if orders == given {
        assert(orders.len() == given.len());
    }
}

/// A line of an order asks for some of a thing of a name, whatever the letters.
pub open spec fn line_asks(line: (String, u32), name: Seq<char>) -> bool {
    line.1 >= 1 && alike(name, line.0@)
}

/// A character holds what was ordered just where something it carries is asked for
/// by a line of somebody else's order: not by one of its own, and not by one that
/// asks for none.
pub proof fn law_holding_what_somebody_else_ordered(
    mates: Seq<Mate>,
    me: Seq<char>,
    things: Seq<Thing>,
)
    ensures
        spec_holding_orders(mates, me, things) <==> exists|j: int, i: int, k: int|
            0 <= j < things.len() && 0 <= i < mates.len() && 0 <= k
                < mates[i].supplies.order@.len() && mates[i].name@ != me && #[trigger] line_asks(
                mates[i].supplies.order@[k],
                things[j].name@,
            ),
        (forall|i: int| 0 <= i < mates.len() ==> (#[trigger] mates[i]).name@ == me)
            ==> !spec_holding_orders(mates, me, things),
        things.len() == 0 ==> !spec_holding_orders(mates, me, things),
{
    if spec_holding_orders(mates, me, things) {
        let j = choose|j: int|
            0 <= j < things.len() && ordered(mates, me, (#[trigger] things[j]).name@);
        let name = things[j].name@;
        let (i, k) = choose|i: int, k: int|
            0 <= i < mates.len() && 0 <= k < mates[i].supplies.order@.len() && mates[i].name@ != me
                && (#[trigger] mates[i].supplies.order@[k]).1 > 0 && alike(
                name,
                mates[i].supplies.order@[k].0@,
            );
        assert(line_asks(mates[i].supplies.order@[k], things[j].name@));
        assert(mates[i].name@ != me);
    }
    if exists|j: int, i: int, k: int|
        0 <= j < things.len() && 0 <= i < mates.len() && 0 <= k < mates[i].supplies.order@.len()
            && mates[i].name@ != me && #[trigger] line_asks(
            mates[i].supplies.order@[k],
            things[j].name@,
        ) {
        let (j, i, k) = choose|j: int, i: int, k: int|
            0 <= j < things.len() && 0 <= i < mates.len() && 0 <= k
                < mates[i].supplies.order@.len() && mates[i].name@ != me && #[trigger] line_asks(
                mates[i].supplies.order@[k],
                things[j].name@,
            );
        assert(mates[i].supplies.order@[k].1 > 0);
        assert(ordered(mates, me, things[j].name@));
    }
}

/// The one that shops for the party is named only where the plan is to send one,
/// and then it is the one that would rather do it than anybody.
pub proof fn law_the_quartermaster_is_named(plan: Plan, party: Seq<Supplies>)
    ensures
        plan == Plan::Everyone ==> spec_quartermaster_name(plan, party) is None,
        plan == Plan::Quartermaster ==> match spec_quartermaster_name(plan, party) {
            Some(name) => exists|i: int|
                0 <= i < party.len() && (#[trigger] party[i]).name == name && name@.len() > 0
                    && forall|j: int|
                    0 <= j < party.len() && (#[trigger] party[j]).name@.len() > 0 ==> shops_rather(
                        party[i],
                        party[j],
                    ),
            None => forall|j: int| 0 <= j < party.len() ==> (#[trigger] party[j]).name@.len() == 0,
        },
{
    law_who_shops_for_the_party(party);
}

/// A party does as is decided, and says why; where nothing is decided nothing
/// changes and nothing is said.
pub proof fn law_a_party_does_as_is_decided(
    before: State,
    after: State,
    team: Team,
    party: Seq<Supplies>,
    mates: nat,
    now: Moment,
    given: Seq<Deed>,
    orders: Seq<Deed>,
)
    requires
        is_mode(before, after, team, party, mates, now, given, orders),
        mates > 0 && team.enabled && team.restock.together,
        before.mode is Hunting || before.mode_since is None || !(Single { bits: 0 }).below(
            team.restock.give_up_after,
        ),
    ensures
        match decided(before.mode, party, team.restock, before.round) {
            None => after == before && orders == given,
            Some((mode, because)) => after.mode == mode && after.mode_because@ == because
                && orders.len() == given.len() + 1 && orders.last() is Note,
        },
{
}

} // verus!
