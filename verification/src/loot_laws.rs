//! What holds of what a character carries and what it can sell.

use crate::burden::{loot_part, spec_had_enough, spec_loot_room};
use crate::carrying::{
    int_from, lumped, most_of, spec_burden, spec_burden_room, spec_laden, sum_of, Load, Packs,
    Property,
};
use crate::clock::{spec_span_of, Span};
use crate::config::Growth;
use crate::single::Single;
use crate::sums::total;
use crate::text::{alike, lower_case, trimmed};
use crate::things::{
    counted_of, notes_of, spec_for_sale, spec_loot_burden, spec_loot_for_sale, spec_salables,
    spec_sale_list, spec_spendable, weapon_from, weight_of, Thing, Window,
};
use crate::wares::{sale_reason, spec_ammo_stock, worth_of, Need, Salable};
use vstd::prelude::*;
use vstd::string::*;

verus! {

/// What is counted, held to what a `u32` can be.
pub open spec fn held_to(n: int) -> u32 {
    if n > u32::MAX {
        u32::MAX
    } else {
        n as u32
    }
}

/// How many there are of a thing: one where it does not say.
pub open spec fn number_of(t: Thing) -> int {
    if t.stack == 0 {
        1
    } else {
        t.stack as int
    }
}

/// The coin a thing is, none where it is no money.
pub open spec fn coin_of(t: Thing) -> int {
    if t.item_type & 0x40 != 0 {
        number_of(t)
    } else {
        0
    }
}

/// What a thing is worth as trade notes, nothing where it is none.
pub open spec fn paper_of(t: Thing) -> int {
    if t.item_type & 0x4_0000 != 0 {
        held_to(t.value * number_of(t)) as int
    } else {
        0
    }
}

proof fn lemma_coin(things: Seq<Thing>, n: nat)
    requires
        n <= things.len(),
    ensures
        counted_of(things, 0x40, n) == total(
            things.take(n as int).map_values(|t: Thing| coin_of(t)),
        ),
        counted_of(things, 0x40, n) >= 0,
    decreases n,
{
    let f = |t: Thing| coin_of(t);
    if n > 0 {
        lemma_coin(things, (n - 1) as nat);
        assert(things.take(n as int).map_values(f).drop_last() =~= things.take(n - 1).map_values(
            f,
        ));
    }
}

proof fn lemma_paper(things: Seq<Thing>, n: nat)
    requires
        n <= things.len(),
    ensures
        notes_of(things, n) == total(things.take(n as int).map_values(|t: Thing| paper_of(t))),
        notes_of(things, n) >= 0,
    decreases n,
{
    let f = |t: Thing| paper_of(t);
    if n > 0 {
        lemma_paper(things, (n - 1) as nat);
        let t = things[n - 1];
        assert(t.value * number_of(t) >= 0) by (nonlinear_arith)
            requires
                t.value >= 0,
                number_of(t) >= 0,
        ;
        assert(things.take(n as int).map_values(f).drop_last() =~= things.take(n - 1).map_values(
            f,
        ));
    }
}

/// The purse is all the coin carried, and what can be spent is that and what all
/// the trade notes are worth.
pub proof fn law_all_the_money_counts(things: Seq<Thing>)
    ensures
        counted_of(things, 0x40, things.len()) == total(
            things.map_values(|t: Thing| coin_of(t)),
        ),
        notes_of(things, things.len()) == total(things.map_values(|t: Thing| paper_of(t))),
        spec_spendable(things) == held_to(
            total(things.map_values(|t: Thing| coin_of(t))) + total(
                things.map_values(|t: Thing| paper_of(t)),
            ),
        ),
{
    lemma_coin(things, things.len());
    lemma_paper(things, things.len());
    assert(things.take(things.len() as int) =~= things);
}

/// A thing is a weapon to fight with: made for melee or for shooting, and not
/// itself what is shot.
pub open spec fn is_weapon(t: Thing) -> bool {
    t.item_type & 0x101 != 0 && t.valid_locations & 0x80_0000 == 0
}

proof fn lemma_weapon(wielded: Seq<Thing>, i: int)
    requires
        0 <= i <= wielded.len(),
        forall|k: int| 0 <= k < i ==> !is_weapon(#[trigger] wielded[k]),
    ensures
        match weapon_from(wielded, i) {
            Some(guid) => exists|k: int|
                0 <= k < wielded.len() && is_weapon(#[trigger] wielded[k]) && wielded[k].guid
                    == guid && forall|j: int| 0 <= j < k ==> !is_weapon(#[trigger] wielded[j]),
            None => forall|k: int| 0 <= k < wielded.len() ==> !is_weapon(#[trigger] wielded[k]),
        },
    decreases wielded.len() - i,
{
    assert(0x1u32 | 0x100u32 == 0x101u32) by (bit_vector);
    if i < wielded.len() && !is_weapon(wielded[i]) {
        lemma_weapon(wielded, i + 1);
    }
}

/// The weapon in hand is the first thing wielded that is one; there is none only
/// where none of them is.
pub proof fn law_the_weapon_is_the_first_one_wielded(wielded: Seq<Thing>)
    ensures
        match weapon_from(wielded, 0) {
            Some(guid) => exists|k: int|
                0 <= k < wielded.len() && is_weapon(#[trigger] wielded[k]) && wielded[k].guid
                    == guid && forall|j: int| 0 <= j < k ==> !is_weapon(#[trigger] wielded[j]),
            None => forall|k: int| 0 <= k < wielded.len() ==> !is_weapon(#[trigger] wielded[k]),
        },
{
    lemma_weapon(wielded, 0);
}

/// A thing is loot to sell: known, offered, and not barred, for what a container
/// holds something or for what it holds nothing.
pub open spec fn may_go(t: Thing, holders: Seq<u32>) -> bool {
    &&& t.known && t.offered
    &&& holders.contains(t.guid) ==> !t.barred_full
    &&& !holders.contains(t.guid) ==> !t.barred_empty
}

proof fn lemma_for_sale(things: Seq<Thing>, holders: Seq<u32>, n: nat)
    requires
        n <= things.len(),
    ensures
        spec_for_sale(things, holders, n) == things.take(n as int).filter(
            |t: Thing| may_go(t, holders),
        ),
    decreases n,
{
    reveal(Seq::filter);
    let p = |t: Thing| may_go(t, holders);
    let all = things.take(n as int);
    if n == 0 {
        assert(spec_for_sale(things, holders, n) =~= all.filter(p));
    } else {
        lemma_for_sale(things, holders, (n - 1) as nat);
        assert(all.drop_last() =~= things.take(n - 1));
        assert(all.last() == things[n - 1]);
    }
}

/// What can be sold is everything carried that is loot to sell, and nothing else,
/// each with what it is and what all of it is worth.
pub proof fn law_all_the_loot_is_for_sale(things: Seq<Thing>, holders: Seq<u32>)
    ensures
        spec_for_sale(things, holders, things.len()) == things.filter(
            |t: Thing| may_go(t, holders),
        ),
        spec_salables(things, holders).len() == things.filter(|t: Thing| may_go(t, holders)).len(),
        forall|i: int|
            0 <= i < spec_salables(things, holders).len() ==> {
                let s = #[trigger] spec_salables(things, holders)[i];
                let t = things.filter(|t: Thing| may_go(t, holders))[i];
                s.guid == t.guid && s.item_type == t.item_type && s.value == t.value && s.stack
                    == number_of(t)
            },
{
    lemma_for_sale(things, holders, things.len());
    assert(things.take(things.len() as int) =~= things);
}

proof fn lemma_weight(things: Seq<Thing>, n: nat)
    requires
        n <= things.len(),
    ensures
        weight_of(things, n) == held_to(
            total(things.take(n as int).map_values(|t: Thing| t.burden as int)),
        ),
        total(things.take(n as int).map_values(|t: Thing| t.burden as int)) >= 0,
    decreases n,
{
    let f = |t: Thing| t.burden as int;
    if n > 0 {
        lemma_weight(things, (n - 1) as nat);
        assert(things.take(n as int).map_values(f).drop_last() =~= things.take(n - 1).map_values(
            f,
        ));
    }
}

/// The loot weighs what everything in it weighs.
pub proof fn law_the_loot_weighs_all_it_is(things: Seq<Thing>, holders: Seq<u32>)
    ensures
        spec_loot_burden(things, holders) == held_to(
            total(
                things.filter(|t: Thing| may_go(t, holders)).map_values(
                    |t: Thing| t.burden as int,
                ),
            ),
        ),
{
    law_all_the_loot_is_for_sale(things, holders);
    let loot = spec_for_sale(things, holders, things.len());
    lemma_weight(loot, loot.len());
    assert(loot.take(loot.len() as int) =~= loot);
}

proof fn lemma_offered(things: Seq<Thing>, n: nat)
    requires
        n <= things.len(),
    ensures
        spec_loot_for_sale(things, n) == things.take(n as int).filter(
            |t: Thing| t.known && t.offered,
        ).map_values(|t: Thing| t.guid),
    decreases n,
{
    reveal(Seq::filter);
    let p = |t: Thing| t.known && t.offered;
    let f = |t: Thing| t.guid;
    let all = things.take(n as int);
    if n > 0 {
        lemma_offered(things, (n - 1) as nat);
        assert(all.drop_last() =~= things.take(n - 1));
        assert(all.last() == things[n - 1]);
    }
    assert(spec_loot_for_sale(things, n) =~= all.filter(p).map_values(f));
}

/// What is offered of what is carried is everything known that is, in order.
pub proof fn law_all_that_is_offered_is_listed(things: Seq<Thing>)
    ensures
        spec_loot_for_sale(things, things.len()) == things.filter(
            |t: Thing| t.known && t.offered,
        ).map_values(|t: Thing| t.guid),
{
    lemma_offered(things, things.len());
    assert(things.take(things.len() as int) =~= things);
}

/// How many there are of something to sell.
pub open spec fn all_of(it: Salable) -> int {
    if it.stack == 0 {
        1
    } else {
        it.stack as int
    }
}

/// What one of a stack is worth is its share of the whole, rounded down; as many
/// are sold at once as a counter's ceiling pays for, all of them where it has none.
pub proof fn law_as_many_are_sold_as_are_paid_for(it: Salable, max_value: u32)
    ensures
        ({
            let e = it.spec_each() as int;
            let n = it.spec_at_once(max_value) as int;
            &&& e * all_of(it) <= it.value < (e + 1) * all_of(it)
            &&& 0 <= n <= all_of(it)
            &&& max_value == 0 ==> n == all_of(it)
            &&& max_value > 0 ==> n * e <= max_value
            &&& max_value > 0 && e > 0 && n < all_of(it) ==> (n + 1) * e > max_value
            &&& max_value > 0 && e == 0 && n < all_of(it) ==> n == max_value
        }),
{
    let k = all_of(it);
    let v = it.value as int;
    let e = it.spec_each() as int;
    assert(e == v / k);
    assert(e * k <= v < (e + 1) * k) by (nonlinear_arith)
        requires
            e == v / k,
            k > 0,
            v >= 0,
    ;
    let d = if e == 0 {
        1
    } else {
        e
    };
    let m = max_value as int;
    let q = m / d;
    assert(q * d <= m < (q + 1) * d && q >= 0) by (nonlinear_arith)
        requires
            q == m / d,
            d > 0,
            m >= 0,
    ;
    let n = it.spec_at_once(max_value) as int;
    if max_value > 0 {
        assert(n <= q);
        assert(n * d <= q * d) by (nonlinear_arith)
            requires
                n <= q,
                d > 0,
        ;
        if e == 0 {
            assert(n * e == 0) by (nonlinear_arith)
                requires
                    e == 0,
            ;
        }
    }
}

/// A counter takes something: it deals in its kind, one of it is worth enough, and
/// it can pay for one.
pub open spec fn is_taken(it: Salable, w: Window) -> bool {
    &&& it.item_type & w.item_types != 0
    &&& it.value as int / all_of(it) >= w.min_value
    &&& w.max_value == 0 || it.value as int / all_of(it) <= w.max_value
}

proof fn lemma_taken(it: Salable, w: Window)
    ensures
        it.spec_taken_by(w.item_types, w.min_value, w.max_value) == is_taken(it, w),
{
    law_as_many_are_sold_as_are_paid_for(it, w.max_value);
    let e = it.spec_each() as int;
    let n = it.spec_at_once(w.max_value) as int;
    assert(e == it.value as int / all_of(it));
    if n == 0 {
        assert((n + 1) * e == e) by (nonlinear_arith)
            requires
                n == 0,
        ;
    } else {
        assert(n * e >= e) by (nonlinear_arith)
            requires
                n >= 1,
                e >= 0,
        ;
    }
}

proof fn lemma_sale_list(all: Seq<Salable>, w: Window, n: nat)
    requires
        n <= all.len(),
    ensures
        spec_sale_list(all, w, n) == all.take(n as int).filter(
            |s: Salable| is_taken(s, w),
        ).map_values(|s: Salable| s.guid),
    decreases n,
{
    reveal(Seq::filter);
    let p = |s: Salable| is_taken(s, w);
    let f = |s: Salable| s.guid;
    let some = all.take(n as int);
    if n > 0 {
        lemma_sale_list(all, w, (n - 1) as nat);
        lemma_taken(all[n - 1], w);
        assert(some.drop_last() =~= all.take(n - 1));
        assert(some.last() == all[n - 1]);
    }
    assert(spec_sale_list(all, w, n) =~= some.filter(p).map_values(f));
}

/// What is sold over a counter is everything to sell that it takes, in order.
pub proof fn law_a_counter_is_sold_all_it_takes(all: Seq<Salable>, w: Window)
    ensures
        spec_sale_list(all, w, all.len()) == all.filter(|s: Salable| is_taken(s, w)).map_values(
            |s: Salable| s.guid,
        ),
{
    lemma_sale_list(all, w, all.len());
    assert(all.take(all.len() as int) =~= all);
}

proof fn lemma_worth(sale: Seq<Salable>)
    ensures
        worth_of(sale) == held_to(total(sale.map_values(|s: Salable| s.value as int))),
        total(sale.map_values(|s: Salable| s.value as int)) >= 0,
    decreases sale.len(),
{
    let f = |s: Salable| s.value as int;
    if sale.len() > 0 {
        lemma_worth(sale.drop_last());
        assert(sale.map_values(f).drop_last() =~= sale.drop_last().map_values(f));
    }
}

/// Loot is worth a run of its own: it is worth as much as is set, or there is as
/// much of it, or it has been carried as long; each only where it is set.
pub open spec fn worth_a_run(sale: Seq<Salable>, carried_for: Option<Span>, cfg: Growth) -> bool {
    &&& sale.len() > 0
    &&& {
        ||| cfg.sell_run_value > 0 && total(sale.map_values(|s: Salable| s.value as int))
            >= cfg.sell_run_value
        ||| cfg.sell_run_count > 0 && sale.len() >= cfg.sell_run_count
        ||| (Single { bits: 0 }).below(cfg.sell_run_patience) && carried_for is Some
            && spec_span_of(cfg.sell_run_patience) is Some && carried_for->0 >= spec_span_of(
            cfg.sell_run_patience,
        )->0
    }
}

/// A run to sell is made just when the loot is worth one.
pub proof fn law_a_sale_run_is_worth_its_way(
    sale: Seq<Salable>,
    carried_for: Option<Span>,
    cfg: Growth,
)
    ensures
        sale_reason(sale, carried_for, cfg) is Some <==> worth_a_run(sale, carried_for, cfg),
{
    reveal(sale_reason);
    lemma_worth(sale);
}

/// A need may be filled anywhere, or only at the shop it names where it names one,
/// whatever the letters.
pub proof fn law_a_need_is_filled_where_it_says(need: Need, shop: Seq<char>)
    ensures
        need.from is None ==> need.spec_may_buy_at(shop),
        need.from is Some ==> need.spec_may_buy_at(shop) == alike(shop, trimmed(need.from->0@)),
{
}

/// A launcher shoots the plain ammunition of its kind and no other.
pub proof fn law_a_launcher_shoots_its_own(name: Seq<char>, kind: u32)
    ensures
        kind == 1 ==> (spec_ammo_stock(name, kind) <==> lower_case(trimmed(name)) == "arrow"@),
        kind == 2 ==> (spec_ammo_stock(name, kind) <==> lower_case(trimmed(name)) == "quarrel"@),
        kind == 4 ==> (spec_ammo_stock(name, kind) <==> lower_case(trimmed(name))
            == "atlatl dart"@),
        kind != 1 && kind != 2 && kind != 4 ==> !spec_ammo_stock(name, kind),
{
}

/// Three times what a character can carry, the most it can move with.
pub open spec fn thrice(capacity: u32) -> int {
    if 3 * capacity > u32::MAX {
        u32::MAX as int
    } else {
        3 * capacity
    }
}

/// The weight of so many times what a character can carry.
pub open spec fn times_over(capacity: u32, times: Single) -> int {
    Single::whole(capacity as int).product(times).cut() as int
}

/// So much more loot can be taken: with it the loot is within what is meant to be
/// carried, the whole within three times what can be; and one whose own things
/// leave it its defence keeps that, which goes at twice what can be carried or at
/// what it means to carry, whichever is more.
pub open spec fn can_take(
    carried: u32,
    loot: u32,
    capacity: u32,
    carry_up_to: Single,
    more: int,
) -> bool {
    let up_to = if carry_up_to.nan() || carry_up_to.below(Single { bits: 0 }) {
        Single { bits: 0 }
    } else {
        carry_up_to
    };
    let line = times_over(
        capacity,
        if up_to.below(Single { bits: 0x4000_0000 }) {
            Single { bits: 0x4000_0000 }
        } else {
            up_to
        },
    );
    let part = if loot < carried {
        loot
    } else {
        carried
    };
    &&& part + more <= times_over(capacity, up_to)
    &&& carried + more <= thrice(capacity)
    &&& carried - part < line ==> carried + more <= line
}

/// The room for loot is the most that can be taken: that much can, and no more.
pub proof fn law_the_room_is_all_there_is(
    carried: u32,
    loot: u32,
    capacity: u32,
    carry_up_to: Single,
    more: int,
)
    requires
        more > 0,
    ensures
        can_take(carried, loot, capacity, carry_up_to, more) <==> more <= spec_loot_room(
            carried,
            loot,
            capacity,
            carry_up_to,
        ),
{
}

/// A character has had enough when there is no room, or when what is left to take
/// does not fit now and would once the loot is sold; and past three times what it
/// can carry it cannot move.
pub proof fn law_when_enough_is_carried(room: u32, left: Option<u32>, sold: u32)
    ensures
        room == 0 ==> spec_had_enough(room, left, sold),
        room > 0 && left is None ==> !spec_had_enough(room, left, sold),
        room > 0 && left is Some && left->0 <= room ==> !spec_had_enough(room, left, sold),
        room > 0 && left is Some && left->0 > sold ==> !spec_had_enough(room, left, sold),
        left is Some && room < left->0 && left->0 <= sold ==> spec_had_enough(room, left, sold),
{
}

proof fn lemma_int(ints: Seq<Property>, key: u32, i: int)
    requires
        0 <= i <= ints.len(),
        forall|k: int| 0 <= k < i ==> (#[trigger] ints[k]).key != key,
    ensures
        match int_from(ints, key, i) {
            Some(n) => exists|k: int|
                0 <= k < ints.len() && (#[trigger] ints[k]).key == key && n == (
                if ints[k].value < 0 {
                    0
                } else {
                    ints[k].value as int
                }) && forall|j: int| 0 <= j < k ==> (#[trigger] ints[j]).key != key,
            None => forall|k: int| 0 <= k < ints.len() ==> (#[trigger] ints[k]).key != key,
        },
    decreases ints.len() - i,
{
    if i < ints.len() && ints[i].key != key {
        lemma_int(ints, key, i + 1);
    }
}

/// A property is read from the first of its key, and one below nought as nought.
pub proof fn law_a_property_is_the_first_of_its_key(ints: Seq<Property>, key: u32)
    ensures
        match int_from(ints, key, 0) {
            Some(n) => exists|k: int|
                0 <= k < ints.len() && (#[trigger] ints[k]).key == key && n == (
                if ints[k].value < 0 {
                    0
                } else {
                    ints[k].value as int
                }) && forall|j: int| 0 <= j < k ==> (#[trigger] ints[j]).key != key,
            None => forall|k: int| 0 <= k < ints.len() ==> (#[trigger] ints[k]).key != key,
        },
{
    lemma_int(ints, key, 0);
}

proof fn lemma_lumped(things: Seq<Thing>, n: nat)
    requires
        n <= things.len(),
    ensures
        lumped(things, n) == total(things.take(n as int).map_values(|t: Thing| t.burden as int)),
        lumped(things, n) >= 0,
    decreases n,
{
    let f = |t: Thing| t.burden as int;
    if n > 0 {
        lemma_lumped(things, (n - 1) as nat);
        assert(things.take(n as int).map_values(f).drop_last() =~= things.take(n - 1).map_values(
            f,
        ));
    }
}

/// What is carried is what the game says is, or where it does not say what all
/// that is in the pack and in hand weighs; what can be is 150 for each point of
/// strength, and 30 more for each rank of the augmentation.
pub proof fn law_what_is_carried_and_what_can_be(l: Load)
    requires
        crate::carrying::can_be_weighed(l),
    ensures
        ({
            let (now, capacity) = spec_burden(l);
            let told = int_from(l.ints@, 5, 0);
            let ranks = match int_from(l.ints@, 230, 0) {
                Some(n) => n as int,
                None => 0,
            };
            &&& told is Some ==> now == told->0
            &&& told is None ==> now == total(
                l.main_pack@.map_values(|t: Thing| t.burden as int),
            ) + total(l.wielded@.map_values(|t: Thing| t.burden as int))
            &&& capacity == held_to(l.strength * (150 + 30 * ranks))
            &&& spec_burden_room(l) == if thrice(capacity) > now {
                thrice(capacity) - now
            } else {
                0
            }
        }),
{
    lemma_lumped(l.main_pack@, l.main_pack@.len());
    lemma_lumped(l.wielded@, l.wielded@.len());
    assert(l.main_pack@.take(l.main_pack@.len() as int) =~= l.main_pack@);
    assert(l.wielded@.take(l.wielded@.len() as int) =~= l.wielded@);
}

/// A character is laden when it can carry anything and has had enough: by the room
/// it has now, and by the room it would have with its loot sold.
pub proof fn law_laden_is_having_had_enough(l: Load, loot: u32, up_to: Single, left: Option<u32>)
    ensures
        ({
            let (carried, capacity) = spec_burden(l);
            let part = if loot < carried {
                loot
            } else {
                carried
            };
            let now = spec_loot_room(carried, loot, capacity, up_to);
            let sold = spec_loot_room((carried - part) as u32, 0, capacity, up_to);
            &&& capacity == 0 ==> !spec_laden(l, loot, up_to, left)
            &&& capacity > 0 && now == 0 ==> spec_laden(l, loot, up_to, left)
            &&& capacity > 0 && now > 0 ==> (spec_laden(l, loot, up_to, left) <==> left is Some
                && now < left->0 && left->0 <= sold)
        }),
{
    let (carried, capacity) = spec_burden(l);
    let part = if loot < carried {
        loot
    } else {
        carried
    };
    assert(loot_part(carried, part) == part && loot_part(carried, loot) == part);
    assert(spec_loot_room(carried, part, capacity, up_to) == spec_loot_room(
        carried,
        loot,
        capacity,
        up_to,
    ));
    crate::burden::law_room_passes_no_line(carried, loot, capacity, up_to);
    crate::burden::law_room_passes_no_line((carried - part) as u32, 0, capacity, up_to);
}

proof fn lemma_most(free: Seq<u32>, n: nat)
    requires
        n <= free.len(),
    ensures
        forall|i: int| 0 <= i < n ==> #[trigger] free[i] <= most_of(free, n),
        most_of(free, n) == 0 || exists|i: int| 0 <= i < n && #[trigger] free[i] == most_of(free, n),
        sum_of(free, n) == total(free.take(n as int).map_values(|x: u32| x as int)),
    decreases n,
{
    let f = |x: u32| x as int;
    if n > 0 {
        lemma_most(free, (n - 1) as nat);
        assert(free[n - 1] == free[n - 1]);
        assert(free.take(n as int).map_values(f).drop_last() =~= free.take(n - 1).map_values(f));
        let was = most_of(free, (n - 1) as nat);
        if most_of(free, n) == was && was != 0 {
            let i = choose|i: int| 0 <= i < n - 1 && #[trigger] free[i] == was;
            assert(free[i] == most_of(free, n));
        }
    }
}

/// The room for one thing is that of the pack with most, the room anywhere that of
/// all of them, and room is low when there is none for one thing or no more
/// anywhere than is kept free.
pub proof fn law_room_in_the_packs(p: Packs, keep_slots: u32)
    ensures
        forall|i: int| 0 <= i < p.free@.len() ==> #[trigger] p.free@[i] <= p.for_a_take(),
        p.for_a_take() == 0 || exists|i: int|
            0 <= i < p.free@.len() && #[trigger] p.free@[i] == p.for_a_take(),
        p.anywhere() == total(p.free@.map_values(|x: u32| x as int)),
        p.for_a_take() == 0 ==> p.spec_low_on_room(keep_slots),
        p.anywhere() <= keep_slots ==> p.spec_low_on_room(keep_slots),
        p.for_a_take() > 0 && p.anywhere() > keep_slots ==> !p.spec_low_on_room(keep_slots),
{
    lemma_most(p.free@, p.free@.len());
    assert(p.free@.take(p.free@.len() as int) =~= p.free@);
}

} // verus!
