//! What is carried to sell, and what is wanted.

use crate::clock::{span_of, spec_span_of, Span, MINUTE};
use crate::config::Growth;
use crate::single::Single;
use crate::text::{
    alike, cat3, cat4, cat5, contains, count, counted, lower_case, same, same_fold, to_lower,
    trim, trimmed, within,
};
use vstd::prelude::*;
use vstd::string::*;

verus! {

/// Something in the pack the rules allow to be sold, before any one counter's
/// tastes are applied to it.
#[derive(Clone, Copy, Debug, PartialEq, Eq, Structural)]
pub struct Salable {
    pub guid: u32,
    /// What kinds of thing it is, one bit to a kind.
    pub item_type: u32,
    /// What the whole stack is worth. A counter's limit is on that figure.
    pub value: u32,
    pub stack: u32,
}

pub open spec fn at_least_one(n: u32) -> u32 {
    if n == 0 {
        1
    } else {
        n
    }
}

impl Salable {
    pub open spec fn spec_each(self) -> u32 {
        (self.value / at_least_one(self.stack)) as u32
    }

    pub open spec fn spec_at_once(self, max_value: u32) -> u32 {
        let all = at_least_one(self.stack);
        if max_value == 0 || max_value / at_least_one(self.spec_each()) >= all {
            all
        } else {
            (max_value / at_least_one(self.spec_each())) as u32
        }
    }

    pub open spec fn spec_taken_by(self, item_types: u32, min_value: u32, max_value: u32) -> bool {
        &&& self.item_type & item_types != 0
        &&& self.spec_each() >= min_value
        &&& self.spec_at_once(max_value) > 0
    }

    /// What one of them is worth.
    pub fn each(&self) -> (r: u32)
        ensures
            r == self.spec_each(),
    {
        self.value / (if self.stack == 0 {
            1
        } else {
            self.stack
        })
    }

    /// How many of them a counter with this ceiling will take at once. Zero
    /// when it will not take even one.
    ///
    /// A stack worth more than the ceiling is not refused for good: it is split
    /// and sold a handful at a time.
    pub fn at_once(&self, max_value: u32) -> (r: u32)
        ensures
            r == self.spec_at_once(max_value),
    {
        let all: u32 = if self.stack == 0 {
            1
        } else {
            self.stack
        };
        if max_value == 0 {
            return all;
        }
        let one: u32 = self.each();
        let some: u32 = max_value / (if one == 0 {
            1
        } else {
            one
        });
        if some < all {
            some
        } else {
            all
        }
    }

    /// Whether a counter that buys `item_types` between `min_value` and
    /// `max_value` (a maximum of 0 being no maximum) would take it, whole or in
    /// pieces.
    pub fn taken_by(&self, item_types: u32, min_value: u32, max_value: u32) -> (r: bool)
        ensures
            r == self.spec_taken_by(item_types, min_value, max_value),
    {
        self.item_type & item_types != 0 && self.each() >= min_value && self.at_once(max_value) > 0
    }
}

/// An armful of a stack never comes to more than the counter's ceiling.
pub proof fn law_an_armful_fits_the_ceiling(it: Salable, max_value: u32)
    requires
        max_value > 0,
        it.spec_each() > 0,
    ensures
        it.spec_at_once(max_value) * it.spec_each() <= max_value,
{
    let e = it.spec_each() as int;
    let q = max_value as int / e;
    vstd::arithmetic::div_mod::lemma_fundamental_div_mod(max_value as int, e);
    let n = it.spec_at_once(max_value) as int;
    assert(n * e <= q * e) by (nonlinear_arith)
        requires
            n <= q,
            e > 0,
    ;
    assert(q * e <= max_value) by (nonlinear_arith)
        requires
            max_value as int == e * q + max_value as int % e,
            max_value as int % e >= 0,
    ;
}

/// What some stacks are worth in all, held to what a `u32` can be.
pub open spec fn worth_of(sale: Seq<Salable>) -> u32
    decreases sale.len(),
{
    if sale.len() == 0 {
        0
    } else {
        let sum = worth_of(sale.drop_last()) + sale.last().value;
        if sum > u32::MAX {
            u32::MAX
        } else {
            sum as u32
        }
    }
}

/// How patient the rules are, none where the rule is off or no clock can count
/// that far.
pub open spec fn patience_of(cfg: Growth) -> Option<int> {
    if (Single { bits: 0 }).below(cfg.sell_run_patience) {
        spec_span_of(cfg.sell_run_patience)
    } else {
        None
    }
}

/// Why what the pack holds for a counter is reason enough for a run to town,
/// if it is.
#[verifier::opaque]
pub open spec fn sale_reason(
    sale: Seq<Salable>,
    carried_for: Option<Span>,
    cfg: Growth,
) -> Option<Seq<char>> {
    let worth = worth_of(sale);
    let n = sale.len() as nat;
    if sale.len() == 0 {
        None
    } else if cfg.sell_run_value > 0 && worth >= cfg.sell_run_value {
        Some(
            "carrying "@ + counted(worth as nat) + " pyreals' worth for a counter ("@ + counted(n)
                + " thing(s))"@,
        )
    } else if cfg.sell_run_count > 0 && n >= cfg.sell_run_count {
        Some("carrying "@ + counted(n) + " things for a counter"@)
    } else if patience_of(cfg) is Some && carried_for is Some && carried_for->0 >= patience_of(
        cfg,
    )->0 {
        Some(
            counted(n) + " thing(s) for a counter carried "@ + counted(
                (carried_for->0 / MINUTE) as nat,
            ) + " min"@,
        )
    } else {
        None
    }
}

/// Whether what the pack holds for a counter is reason enough for a run to
/// town, and the reason if it is.
///
/// `sale` is what the selling rules would let go today, and `carried_for` how
/// long any of it has been in the pack. Three rules, any one enough: it is
/// worth enough at face, there are enough things, or it has been carried long
/// enough. Each is off at 0.
pub fn worth_a_sale_run(sale: &[Salable], carried_for: Option<Span>, cfg: &Growth) -> (r: Option<
    String,
>)
    requires
        sale@.len() <= u32::MAX,
    ensures
        match r {
            Some(s) => sale_reason(sale@, carried_for, *cfg) == Some(s@),
            None => sale_reason(sale@, carried_for, *cfg) is None,
        },
{
    proof {
        reveal(sale_reason);
    }
    if sale.len() == 0 {
        return None;
    }
    let mut worth: u32 = 0;
    let mut i: usize = 0;
    while i < sale.len()
        invariant
            i <= sale.len(),
            worth == worth_of(sale@.take(i as int)),
        decreases sale.len() - i,
    {
        assert(sale@.take(i + 1).drop_last() =~= sale@.take(i as int));
        worth = worth.saturating_add(sale[i].value);
        i = i + 1;
    }
    assert(sale@.take(i as int) =~= sale@);
    let n: usize = sale.len();
    let things = count(n as u128);
    if cfg.sell_run_value > 0 && worth >= cfg.sell_run_value {
        let much = count(worth as u128);
        return Some(
            cat5(
                "carrying ",
                much.as_str(),
                " pyreals' worth for a counter (",
                things.as_str(),
                " thing(s))",
            ),
        );
    }
    if cfg.sell_run_count > 0 && n as u32 >= cfg.sell_run_count {
        return Some(cat3("carrying ", things.as_str(), " things for a counter"));
    }
    if (Single { bits: 0 }).lt(cfg.sell_run_patience) {
        if let Some(patience) = span_of(cfg.sell_run_patience) {
            if let Some(d) = carried_for {
                if d as u128 >= patience {
                    let minutes = count((d / MINUTE) as u128);
                    return Some(
                        cat4(
                            things.as_str(),
                            " thing(s) for a counter carried ",
                            minutes.as_str(),
                            " min",
                        ),
                    );
                }
            }
        }
    }
    None
}

/// What answers a need.
#[derive(Clone, Debug, PartialEq)]
pub enum NeedKind {
    /// Stock whose name contains this.
    Named(String),
    /// Ammunition of this kind.
    Ammo(u32),
    /// A spell component, by the weenie class of the item.
    Component(u32),
}

/// Something the character is short of.
#[derive(Clone, Debug, PartialEq)]
pub struct Need {
    /// What it is, for the log.
    pub name: String,
    /// How many more to buy.
    pub want: u32,
    /// How many are carried, and how many the rules ask for.
    pub have: u32,
    pub keep: u32,
    /// Whether it is short enough to be worth a run to town.
    pub urgent: bool,
    /// Whether enough of the world sells it to go and buy it. What is not is
    /// farmed instead, never drives a trip and is never counted against the
    /// character's supplies.
    pub buyable: bool,
    /// The counter the player named for this line, if they named one. A want
    /// that says where it comes from is filled there and nowhere else.
    pub from: Option<String>,
    pub kind: NeedKind,
}

impl Need {
    pub open spec fn spec_may_buy_at(self, shop: Seq<char>) -> bool {
        match self.from {
            None => true,
            Some(want) => alike(shop, trimmed(want@)),
        }
    }

    /// The same need once more.
    pub fn copy(&self) -> (r: Need)
        ensures
            r == *self,
    {
        let from = match &self.from {
            Some(s) => Some(s.clone()),
            None => None,
        };
        let kind = match &self.kind {
            NeedKind::Named(s) => NeedKind::Named(s.clone()),
            NeedKind::Ammo(k) => NeedKind::Ammo(*k),
            NeedKind::Component(w) => NeedKind::Component(*w),
        };
        Need {
            name: self.name.clone(),
            want: self.want,
            have: self.have,
            keep: self.keep,
            urgent: self.urgent,
            buyable: self.buyable,
            from,
            kind,
        }
    }

    /// Whether this counter is one this line may be bought at. A line that
    /// names none is bought wherever it is sold.
    pub fn may_buy_at(&self, shop: &str) -> (r: bool)
        ensures
            r == self.spec_may_buy_at(shop@),
    {
        match &self.from {
            None => true,
            Some(want) => same_fold(shop, trim(want.as_str())),
        }
    }
}

/// The same needs once more.
pub fn copy_needs(needs: &Vec<Need>) -> (r: Vec<Need>)
    ensures
        r@ == needs@,
{
    let mut r: Vec<Need> = Vec::new();
    let mut i: usize = 0;
    while i < needs.len()
        invariant
            i <= needs.len(),
            r@ == needs@.take(i as int),
        decreases needs.len() - i,
    {
        r.push(needs[i].copy());
        assert(r@ =~= needs@.take(i + 1));
        i = i + 1;
    }
    assert(needs@.take(i as int) =~= needs@);
    r
}

/// The kinds of ammunition there are, by the bits the game gives them.
pub const ARROW: u32 = 1;

pub const BOLT: u32 = 2;

pub const ATLATL: u32 = 4;

/// What plain ammunition of a kind is called.
pub open spec fn plain_ammo(kind: u32) -> Option<Seq<char>> {
    if kind == ARROW {
        Some("arrow"@)
    } else if kind == BOLT {
        Some("quarrel"@)
    } else if kind == ATLATL {
        Some("atlatl dart"@)
    } else {
        None
    }
}

pub open spec fn spec_ammo_stock(name: Seq<char>, kind: u32) -> bool {
    plain_ammo(kind) == Some(lower_case(trimmed(name)))
}

/// Whether a name folded to small letters is that of plain ammunition.
pub fn is_plain_ammo(folded: &str, kind: u32) -> (r: bool)
    ensures
        r == (plain_ammo(kind) == Some(folded@)),
{
    if kind == ARROW {
        same(folded, "arrow")
    } else if kind == BOLT {
        same(folded, "quarrel")
    } else if kind == ATLATL {
        same(folded, "atlatl dart")
    } else {
        false
    }
}

/// Whether a stock line is plain ammunition of `kind`: an "Arrow", not a
/// "Bundle of Arrowheads" or a "Fire Arrow".
pub fn ammo_stock(name: &str, kind: u32) -> (r: bool)
    ensures
        r == spec_ammo_stock(name@, kind),
{
    let folded = to_lower(trim(name));
    is_plain_ammo(folded.as_str(), kind)
}

/// Whether a name folded to small letters is not that of a healing kit.
pub fn is_no_kit(folded: &str) -> (r: bool)
    ensures
        r == !within(folded@, "healing kit"@),
{
    !contains(folded, "healing kit")
}

/// Whether a name on the keep-stocked list is worth buying. A healing kit does
/// nothing for a character that has not trained Healing, so buying one wastes
/// the money and the trip.
pub fn worth_stocking(name: &str, heals_with_kits: bool) -> (r: bool)
    ensures
        r == spec_worth_stocking(name@, heals_with_kits),
{
    if heals_with_kits {
        return true;
    }
    let folded = to_lower(name);
    is_no_kit(folded.as_str())
}

pub open spec fn spec_worth_stocking(name: Seq<char>, heals_with_kits: bool) -> bool {
    heals_with_kits || !within(lower_case(name), "healing kit"@)
}

} // verus!
