//! What holds of what a counter stocks, charges and pays.

use crate::counters::{
    answers, capped, fetched, foreseen, shopped, ware_for, Errand, Look, Shop, Want, Ware,
};
use crate::text::{counted, few, holds, told};
use crate::wares::{Need, Salable};
use vstd::prelude::*;
use vstd::string::*;

verus! {

/// The ware at `i` answers the need, none on the shelf that does is worth less,
/// and none before it that does is worth as little.
pub open spec fn cheapest_at(sells: Seq<Ware>, need: Need, needle: Seq<char>, i: int) -> bool {
    &&& 0 <= i < sells.len()
    &&& answers(sells[i], need, needle)
    &&& forall|k: int|
        0 <= k < sells.len() && answers(#[trigger] sells[k], need, needle) ==> sells[i].value
            <= sells[k].value
    &&& forall|k: int|
        0 <= k < i && answers(#[trigger] sells[k], need, needle) ==> sells[i].value
            < sells[k].value
}

/// No ware on the shelf answers the need.
pub open spec fn none_answers(sells: Seq<Ware>, need: Need, needle: Seq<char>) -> bool {
    forall|k: int| 0 <= k < sells.len() ==> !answers(#[trigger] sells[k], need, needle)
}

proof fn lemma_ware_for(sells: Seq<Ware>, need: Need, needle: Seq<char>, n: nat)
    requires
        n <= sells.len(),
    ensures
        match ware_for(sells, need, needle, n) {
            Some(i) => {
                &&& 0 <= i < n
                &&& answers(sells[i], need, needle)
                &&& forall|k: int|
                    0 <= k < n && answers(#[trigger] sells[k], need, needle) ==> sells[i].value
                        <= sells[k].value
                &&& forall|k: int|
                    0 <= k < i && answers(#[trigger] sells[k], need, needle) ==> sells[i].value
                        < sells[k].value
            },
            None => forall|k: int| 0 <= k < n ==> !answers(#[trigger] sells[k], need, needle),
        },
    decreases n,
{
    if n > 0 {
        lemma_ware_for(sells, need, needle, (n - 1) as nat);
    }
}

/// The ware taken answers the need and is worth no more than any other on the
/// shelf that does; where none is taken, none answers.
pub proof fn law_the_cheapest_ware_answers(sells: Seq<Ware>, need: Need, needle: Seq<char>)
    ensures
        match ware_for(sells, need, needle, sells.len()) {
            Some(i) => cheapest_at(sells, need, needle, i),
            None => none_answers(sells, need, needle),
        },
{
    lemma_ware_for(sells, need, needle, sells.len());
}

/// What answers a need: a component by its class, a named thing by the words in
/// its name.
pub proof fn law_what_answers_a_need(w: Ware, need: Need, needle: Seq<char>)
    ensures
        need.kind is Component ==> (answers(w, need, needle) <==> w.wcid
            == need.kind->Component_0),
        need.kind is Named ==> (answers(w, need, needle) <==> holds(w.name@, needle)),
{
}

/// The want of this number can be bought here at `unit` each.
pub open spec fn filled_at(shop: Shop, want: Want, unit: u32) -> bool {
    want.need.spec_may_buy_at(shop.name@) && exists|k: int| #[trigger]
        cheapest_at(shop.sells@, *want.need, want.needle@, k) && unit == if shop.sells@[k].charge
            == 0 {
            1
        } else {
            shop.sells@[k].charge
        }
}

/// The want of this number cannot be bought here.
pub open spec fn unfilled(shop: Shop, want: Want) -> bool {
    !want.need.spec_may_buy_at(shop.name@) || none_answers(
        shop.sells@,
        *want.need,
        want.needle@,
    )
}

/// What one of each want costs, and nothing for those that are not to be had.
pub open spec fn are_prices(shop: Shop, wants: Seq<Want>, prices: Seq<Option<u32>>) -> bool {
    &&& prices.len() == wants.len()
    &&& forall|i: int|
        0 <= i < wants.len() ==> match #[trigger] prices[i] {
            Some(unit) => unit > 0 && filled_at(shop, wants[i], unit),
            None => unfilled(shop, wants[i]),
        }
}

/// What the wants that are to be had cost together.
pub open spec fn full_price(wants: Seq<Want>, prices: Seq<Option<u32>>) -> int
    decreases wants.len(),
{
    if wants.len() == 0 || prices.len() == 0 {
        0
    } else {
        full_price(wants.drop_last(), prices.drop_last()) + match prices.last() {
            Some(unit) => unit * wants.last().need.want,
            None => 0,
        }
    }
}

/// Those of the wants, by name, of which this is so.
pub open spec fn named_where(wants: Seq<Want>, prices: Seq<Option<u32>>, had: bool) -> Seq<String>
    decreases wants.len(),
{
    if wants.len() == 0 || prices.len() == 0 {
        seq![]
    } else {
        let rest = named_where(wants.drop_last(), prices.drop_last(), had);
        if (prices.last() is Some) == had {
            rest.push(wants.last().need.name)
        } else {
            rest
        }
    }
}

/// A forecast's shelf is as the prices say: what is stocked and what is missing,
/// the bill for all of it, as far as it can be counted, and the least that one of
/// anything costs.
pub open spec fn shelf_is(look: Look, wants: Seq<Want>, prices: Seq<Option<u32>>) -> bool {
    &&& look.stocks == named_where(wants, prices, true)
    &&& look.missing == named_where(wants, prices, false)
    &&& full_price(wants, prices) <= u32::MAX ==> look.bill == full_price(wants, prices)
    &&& full_price(wants, prices) > u32::MAX ==> look.bill == u32::MAX
    &&& forall|i: int|
        0 <= i < prices.len() && (#[trigger] prices[i]) is Some ==> 0 < look.cheapest
            <= prices[i]->0
    &&& look.cheapest > 0 ==> exists|i: int|
        0 <= i < prices.len() && #[trigger] prices[i] == Some(look.cheapest)
}

proof fn lemma_price_of(shop: Shop, want: Want) -> (p: Option<u32>)
    ensures
        match p {
            Some(unit) => unit > 0 && filled_at(shop, want, unit),
            None => unfilled(shop, want),
        },
        ({
            let ware = ware_for(shop.sells@, *want.need, want.needle@, shop.sells@.len());
            &&& p is Some <==> want.need.spec_may_buy_at(shop.name@) && ware is Some
            &&& p is Some ==> p->0 == if shop.sells@[ware->0].charge == 0 {
                1
            } else {
                shop.sells@[ware->0].charge
            }
        }),
{
    law_the_cheapest_ware_answers(shop.sells@, *want.need, want.needle@);
    match ware_for(shop.sells@, *want.need, want.needle@, shop.sells@.len()) {
        Some(k) => if want.need.spec_may_buy_at(shop.name@) {
            let unit: u32 = if shop.sells@[k].charge == 0 {
                1
            } else {
                shop.sells@[k].charge
            };
            assert(cheapest_at(shop.sells@, *want.need, want.needle@, k));
            Some(unit)
        } else {
            None
        },
        None => None,
    }
}

proof fn lemma_full_price(wants: Seq<Want>, prices: Seq<Option<u32>>)
    ensures
        full_price(wants, prices) >= 0,
    decreases wants.len(),
{
    if wants.len() > 0 && prices.len() > 0 {
        lemma_full_price(wants.drop_last(), prices.drop_last());
        if let Some(unit) = prices.last() {
            let n = wants.last().need.want;
            assert(unit * n >= 0) by (nonlinear_arith)
                requires
                    unit >= 0,
                    n >= 0,
            ;
        }
    }
}

proof fn lemma_shopped(shop: Shop, wants: Seq<Want>, purse: u32, n: nat) -> (prices: Seq<Option<u32>>)
    requires
        n <= wants.len(),
    ensures
        are_prices(shop, wants.take(n as int), prices),
        shelf_is(shopped(shop, wants, purse, n), wants.take(n as int), prices),
        shopped(shop, wants, purse, n).purse == purse,
        shopped(shop, wants, purse, n).shop == shop.name,
        shopped(shop, wants, purse, n).takings == 0,
        shopped(shop, wants, purse, n).selling == 0,
    decreases n,
{
    let some = wants.take(n as int);
    if n == 0 {
        assert(some =~= seq![]);
        Seq::<Option<u32>>::empty()
    } else {
        let before = lemma_shopped(shop, wants, purse, (n - 1) as nat);
        let f = shopped(shop, wants, purse, (n - 1) as nat);
        let look = shopped(shop, wants, purse, n);
        let less = wants.take(n - 1);
        assert(some.drop_last() =~= less);
        assert(some.last() == wants[n - 1]);
        let p = lemma_price_of(shop, wants[n - 1]);
        let prices = before.push(p);
        assert(prices.drop_last() =~= before);
        lemma_full_price(less, before);
        assert forall|i: int| 0 <= i < some.len() implies match #[trigger] prices[i] {
            Some(unit) => unit > 0 && filled_at(shop, some[i], unit),
            None => unfilled(shop, some[i]),
        } by {
            if i < n - 1 {
                assert(prices[i] == before[i]);
                assert(some[i] == less[i]);
            }
        }
        if let Some(unit) = p {
            let w = wants[n - 1].need.want;
            assert(unit * w >= 0) by (nonlinear_arith)
                requires
                    unit >= 0,
                    w >= 0,
            ;
            if look.cheapest == f.cheapest && f.cheapest > 0 {
                let i = choose|i: int|
                    0 <= i < before.len() && #[trigger] before[i] == Some(f.cheapest);
                assert(prices[i] == Some(look.cheapest));
            } else {
                assert(prices[n - 1] == Some(look.cheapest));
            }
            assert forall|i: int| 0 <= i < prices.len() && (#[trigger] prices[i]) is Some implies 0
                < look.cheapest <= prices[i]->0 by {
                if i < n - 1 {
                    assert(prices[i] == before[i]);
                }
            }
        } else {
            if look.cheapest > 0 {
                let i = choose|i: int|
                    0 <= i < before.len() && #[trigger] before[i] == Some(f.cheapest);
                assert(prices[i] == Some(look.cheapest));
            }
            assert forall|i: int| 0 <= i < prices.len() && (#[trigger] prices[i]) is Some implies 0
                < look.cheapest <= prices[i]->0 by {
                if i < n - 1 {
                    assert(prices[i] == before[i]);
                }
            }
        }
        prices
    }
}

/// One thing for sale fetches this much here, the whole stack of it.
pub open spec fn fetches(shop: Shop, it: Salable, paid: Option<u32>) -> Option<int> {
    if it.spec_taken_by(shop.buys, shop.min_value, shop.max_value) && paid is Some {
        Some(
            paid->0 * if it.stack == 0 {
                1int
            } else {
                it.stack as int
            },
        )
    } else {
        None
    }
}

/// What all that this shop takes fetches.
pub open spec fn full_takings(shop: Shop, salables: Seq<Salable>, paid: Seq<Option<u32>>) -> int
    decreases salables.len(),
{
    if salables.len() == 0 || paid.len() == 0 {
        0
    } else {
        full_takings(shop, salables.drop_last(), paid.drop_last()) + match fetches(
            shop,
            salables.last(),
            paid.last(),
        ) {
            Some(n) => n,
            None => 0,
        }
    }
}

/// How many things this shop takes.
pub open spec fn taken_count(shop: Shop, salables: Seq<Salable>, paid: Seq<Option<u32>>) -> nat
    decreases salables.len(),
{
    if salables.len() == 0 || paid.len() == 0 {
        0
    } else {
        taken_count(shop, salables.drop_last(), paid.drop_last()) + if fetches(
            shop,
            salables.last(),
            paid.last(),
        ) is Some {
            1nat
        } else {
            0nat
        }
    }
}

proof fn lemma_fetched(
    shop: Shop,
    f: Look,
    salables: Seq<Salable>,
    paid: Seq<Option<u32>>,
    n: nat,
)
    requires
        n <= salables.len() == paid.len(),
        f.takings == 0,
        f.selling == 0,
    ensures
        ({
            let g = fetched(shop, f, salables, paid, n);
            let (some, pay) = (salables.take(n as int), paid.take(n as int));
            &&& g == (Look { takings: g.takings, selling: g.selling, ..f })
            &&& full_takings(shop, some, pay) >= 0
            &&& g.takings == capped(full_takings(shop, some, pay))
            &&& g.selling == taken_count(shop, some, pay)
        }),
    decreases n,
{
    let (some, pay) = (salables.take(n as int), paid.take(n as int));
    if n == 0 {
        assert(some =~= seq![]);
    } else {
        lemma_fetched(shop, f, salables, paid, (n - 1) as nat);
        assert(some.drop_last() =~= salables.take(n - 1));
        assert(pay.drop_last() =~= paid.take(n - 1));
        let it = salables[n - 1];
        assert(some.last() == it && pay.last() == paid[n - 1]);
        if let Some(p) = paid[n - 1] {
            let all: int = if it.stack == 0 {
                1
            } else {
                it.stack as int
            };
            assert(p * all >= 0) by (nonlinear_arith)
                requires
                    p >= 0,
                    all >= 0,
            ;
        }
    }
}

/// What a forecast says: of each want whether it is to be had here, at the price
/// of the cheapest ware that answers it; the bill for all that is to be had; the
/// least that one of anything costs; and what all that the counter takes fetches,
/// each stack whole.
pub proof fn law_a_forecast_counts_everything(
    shop: Shop,
    wants: Seq<Want>,
    purse: u32,
    salables: Seq<Salable>,
    paid: Seq<Option<u32>>,
    look: Look,
)
    requires
        salables.len() == paid.len(),
        look == foreseen(shop, wants, purse, salables, paid),
    ensures
        exists|prices: Seq<Option<u32>>|
            are_prices(shop, wants, prices) && #[trigger] shelf_is(look, wants, prices),
        look.shop == shop.name,
        look.purse == purse,
        look.selling == taken_count(shop, salables, paid),
        full_takings(shop, salables, paid) <= u32::MAX ==> look.takings == full_takings(
            shop,
            salables,
            paid,
        ),
        full_takings(shop, salables, paid) > u32::MAX ==> look.takings == u32::MAX,
{
    let prices = lemma_shopped(shop, wants, purse, wants.len());
    let f = shopped(shop, wants, purse, wants.len());
    assert(wants.take(wants.len() as int) =~= wants);
    lemma_fetched(shop, f, salables, paid, salables.len());
    assert(salables.take(salables.len() as int) =~= salables);
    assert(paid.take(paid.len() as int) =~= paid);
    assert(shelf_is(look, wants, prices));
}

/// A trip covers the order just where nothing asked for is missing, something
/// was asked for, and purse and takings together pay the bill; and it is worth
/// going just where something can be sold, or one thing wanted can be paid for.
pub proof fn law_a_trip_is_judged_by_what_it_pays(look: Look)
    ensures
        look.covers_it() <==> look.missing.len() == 0 && look.stocks.len() > 0 && look.purse
            + look.takings >= look.bill,
        look.worth_going() <==> look.selling > 0 || (look.cheapest > 0 && look.purse
            + look.takings >= look.cheapest),
        look.purse + look.takings <= u32::MAX ==> look.funds() == look.purse + look.takings,
        look.purse + look.takings > u32::MAX ==> look.funds() == u32::MAX,
        Errand::Sell.spec_served_by(look) <==> look.selling > 0,
        Errand::Buy.spec_served_by(look) <==> look.worth_going(),
{
}

/// What is told of a trip: how much of the order is on the shelf and what is in
/// hand; what it costs where it costs anything; what is fetched where anything is
/// sold; and what is missing where anything is.
pub proof fn law_what_is_told_of_a_trip(look: Look)
    ensures
        ({
            let asked = (look.stocks.len() + look.missing.len()) as nat;
            let shelf = counted(look.stocks.len()) + " of "@ + counted(asked)
                + " on the shelf"@;
            let bill = ", "@ + counted(look.bill as nat) + " to buy"@;
            let purse = ", "@ + counted(look.purse as nat) + " in hand"@;
            let sale = ", "@ + counted(look.takings as nat) + " for "@ + counted(
                look.selling as nat,
            ) + " item(s)"@;
            let none = "; no "@ + few(told(look.missing));
            &&& look.bill == 0 && look.selling == 0 && look.missing.len() == 0 ==> look.told_as()
                == shelf + purse
            &&& look.bill >= 1 && look.selling == 0 && look.missing.len() == 0 ==> look.told_as()
                == shelf + bill + purse
            &&& look.bill == 0 && look.selling >= 1 && look.missing.len() == 0 ==> look.told_as()
                == shelf + purse + sale
            &&& look.bill >= 1 && look.selling >= 1 && look.missing.len() == 0 ==> look.told_as()
                == shelf + bill + purse + sale
            &&& look.bill == 0 && look.selling == 0 && look.missing.len() >= 1 ==> look.told_as()
                == shelf + purse + none
            &&& look.bill >= 1 && look.selling == 0 && look.missing.len() >= 1 ==> look.told_as()
                == shelf + bill + purse + none
            &&& look.bill == 0 && look.selling >= 1 && look.missing.len() >= 1 ==> look.told_as()
                == shelf + purse + sale + none
            &&& look.bill >= 1 && look.selling >= 1 && look.missing.len() >= 1 ==> look.told_as()
                == shelf + bill + purse + sale + none
        }),
{
    let asked = (look.stocks.len() + look.missing.len()) as nat;
    let shelf = counted(look.stocks.len()) + " of "@ + counted(asked) + " on the shelf"@;
    let bill = ", "@ + counted(look.bill as nat) + " to buy"@;
    let purse = ", "@ + counted(look.purse as nat) + " in hand"@;
    let sale = ", "@ + counted(look.takings as nat) + " for "@ + counted(look.selling as nat)
        + " item(s)"@;
    let none = "; no "@ + few(told(look.missing));
    let e = Seq::<char>::empty();
    assert(shelf + e =~= shelf);
    assert(shelf + purse + e =~= shelf + purse);
    assert(shelf + bill + purse + e =~= shelf + bill + purse);
    assert(shelf + purse + sale + e =~= shelf + purse + sale);
    assert(shelf + bill + purse + sale + e =~= shelf + bill + purse + sale);
    assert(shelf + purse + e + e =~= shelf + purse);
    assert(shelf + bill + purse + e + e =~= shelf + bill + purse);
}

/// Why a counter is gone to: for what it covers of the order and for what it buys,
/// and where it sells nothing that is wanted that is said.
pub proof fn law_why_a_counter_is_gone_to(look: Look)
    ensures
        look.stocks.len() == 0 && look.selling == 0 ==> look.why()
            == "nothing wanted is sold here; nearest counter"@,
        look.stocks.len() == 0 && look.selling > 0 ==> look.why()
            == "nowhere sells what is wanted; "@ + counted(look.selling as nat)
            + " thing(s) to sell"@,
        look.stocks.len() > 0 && look.selling == 0 ==> look.why() == look.coverage(),
        look.stocks.len() > 0 && look.selling > 0 ==> look.why() == look.coverage() + "; "@
            + counted(look.selling as nat) + " thing(s) to sell here"@,
        look.missing.len() == 0 && look.stocks.len() > 0 && look.purse + look.takings >= look.bill
            ==> look.coverage() == "the whole order"@,
        look.missing.len() == 0 && look.stocks.len() > 0 && look.purse + look.takings < look.bill
            ==> look.coverage() == few(told(look.stocks)) + ", but short of coin"@,
        look.missing.len() > 0 ==> look.coverage() == few(told(look.stocks)) + " (not "@ + few(
            told(look.missing),
        ) + ")"@,
{
}

} // verus!
