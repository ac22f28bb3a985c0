//! Which counter is worth walking to: what a trip to each would buy, cost and
//! fetch, judged before it is walked.

use crate::counters_laws::{cheapest_at, law_the_cheapest_ware_answers, none_answers};
use crate::text::{a_few, cat2, cat3, cat4, contains_fold, count, counted, few, holds, lent, told};
use crate::wares::{ammo_stock, spec_ammo_stock, Need, NeedKind, Salable};
use vstd::prelude::*;
use vstd::string::*;

verus! {

/// Something on a counter's shelf.
#[derive(Clone, Debug)]
pub struct Ware {
    pub wcid: u32,
    pub name: String,
    /// What it is worth.
    pub value: u32,
    /// What the counter asks for one.
    pub charge: u32,
}

/// A counter and what it trades in.
#[derive(Clone, Debug)]
pub struct Shop {
    pub name: String,
    pub sells: Vec<Ware>,
    /// The kinds of thing it buys, one bit to a kind.
    pub buys: u32,
    /// The least and the most one of a thing may be worth for it to be bought;
    /// a most of 0 is none.
    pub min_value: u32,
    pub max_value: u32,
}

/// A need with its name folded to small letters.
#[derive(Clone, Debug)]
pub struct Want<'a> {
    pub need: &'a Need,
    pub needle: String,
}

/// What a run to town is for, which decides which counter it goes to.
#[derive(Clone, Copy, Debug, PartialEq, Eq, Structural)]
pub enum Errand {
    /// To buy what the character is short of. A counter is chosen on what it
    /// stocks; what it pays for the loot carried along is a tiebreak.
    Buy,
    /// To sell what is carried. A counter is chosen on what it pays for that,
    /// and one that buys none of it is never chosen.
    Sell,
}

/// What a trip to one shop is expected to achieve.
#[derive(Clone, Debug)]
pub struct Forecast {
    /// The shop, for the log.
    pub shop: String,
    /// Needs it has on the shelf, and needs it has not.
    pub stocks: Vec<String>,
    pub missing: Vec<String>,
    /// What the needs it stocks would cost in full at its prices.
    pub bill: u32,
    /// The least one of anything wanted costs here; 0 when it stocks nothing
    /// that is wanted.
    pub cheapest: u32,
    /// Coin and notes in hand.
    pub purse: u32,
    /// What it would pay for what the character means to sell, and how many
    /// things that is.
    pub takings: u32,
    pub selling: usize,
}

/// What a forecast says.
#[verifier::ext_equal]
pub struct Look {
    pub shop: String,
    pub stocks: Seq<String>,
    pub missing: Seq<String>,
    pub bill: u32,
    pub cheapest: u32,
    pub purse: u32,
    pub takings: u32,
    pub selling: int,
}

impl View for Forecast {
    type V = Look;

    open spec fn view(&self) -> Look {
        Look {
            shop: self.shop,
            stocks: self.stocks@,
            missing: self.missing@,
            bill: self.bill,
            cheapest: self.cheapest,
            purse: self.purse,
            takings: self.takings,
            selling: self.selling as int,
        }
    }
}

pub open spec fn capped(n: int) -> u32 {
    if n > u32::MAX {
        u32::MAX
    } else {
        n as u32
    }
}

impl Look {
    pub open spec fn funds(self) -> u32 {
        capped(self.purse + self.takings)
    }

    pub open spec fn covers_it(self) -> bool {
        self.missing.len() == 0 && self.stocks.len() > 0 && self.funds() >= self.bill
    }

    pub open spec fn worth_going(self) -> bool {
        self.selling > 0 || (self.cheapest > 0 && self.funds() >= self.cheapest)
    }

    /// What the trip covers of the order, in words.
    pub open spec fn coverage(self) -> Seq<char> {
        if self.covers_it() {
            "the whole order"@
        } else if self.missing.len() == 0 {
            few(told(self.stocks)) + ", but short of coin"@
        } else {
            few(told(self.stocks)) + " (not "@ + few(told(self.missing)) + ")"@
        }
    }

    pub open spec fn why(self) -> Seq<char> {
        if self.stocks.len() == 0 {
            if self.selling == 0 {
                "nothing wanted is sold here; nearest counter"@
            } else {
                "nowhere sells what is wanted; "@ + counted(self.selling as nat)
                    + " thing(s) to sell"@
            }
        } else if self.selling == 0 {
            self.coverage()
        } else {
            self.coverage() + "; "@ + counted(self.selling as nat) + " thing(s) to sell here"@
        }
    }

    pub open spec fn told_as(self) -> Seq<char> {
        let asked = (self.stocks.len() + self.missing.len()) as nat;
        let shelf = counted(self.stocks.len()) + " of "@ + counted(asked) + " on the shelf"@;
        let bill = if self.bill > 0 {
            ", "@ + counted(self.bill as nat) + " to buy"@
        } else {
            seq![]
        };
        let purse = ", "@ + counted(self.purse as nat) + " in hand"@;
        let sale = if self.selling > 0 {
            ", "@ + counted(self.takings as nat) + " for "@ + counted(self.selling as nat)
                + " item(s)"@
        } else {
            seq![]
        };
        let none = if self.missing.len() > 0 {
            "; no "@ + few(told(self.missing))
        } else {
            seq![]
        };
        shelf + bill + purse + sale + none
    }
}

impl Default for Forecast {
    fn default() -> (r: Forecast)
        ensures
            r.shop@.len() == 0,
            r@ == (Look {
                shop: r.shop,
                stocks: seq![],
                missing: seq![],
                bill: 0,
                cheapest: 0,
                purse: 0,
                takings: 0,
                selling: 0,
            }),
    {
        Forecast {
            shop: String::new(),
            stocks: Vec::new(),
            missing: Vec::new(),
            bill: 0,
            cheapest: 0,
            purse: 0,
            takings: 0,
            selling: 0,
        }
    }
}

fn few_of(names: &Vec<String>) -> (r: String)
    ensures
        r@ == few(told(names@)),
{
    let v = lent(names);
    a_few(v.as_slice())
}

impl Forecast {
    /// What there is to spend once the selling is done.
    pub fn funds(&self) -> (r: u32)
        ensures
            r == self@.funds(),
    {
        self.purse.saturating_add(self.takings)
    }

    /// Whether the trip fills the whole order.
    pub fn covers_it(&self) -> (r: bool)
        ensures
            r == self@.covers_it(),
    {
        self.missing.len() == 0 && self.stocks.len() > 0 && self.funds() >= self.bill
    }

    /// Whether the trip achieves anything at all: something to sell, or one
    /// thing it wants that it can pay for. Buying part of an order counts, but
    /// buying none of it does not.
    pub fn worth_going(&self) -> (r: bool)
        ensures
            r == self@.worth_going(),
    {
        self.selling > 0 || (self.cheapest > 0 && self.funds() >= self.cheapest)
    }

    /// Why this shop was the one chosen, in a few words.
    pub fn why_it_was_picked(&self) -> (r: String)
        ensures
            r@ == self@.why(),
    {
        if self.stocks.len() == 0 {
            return if self.selling == 0 {
                String::from_str("nothing wanted is sold here; nearest counter")
            } else {
                let n = count(self.selling as u128);
                cat3("nowhere sells what is wanted; ", n.as_str(), " thing(s) to sell")
            };
        }
        let what = few_of(&self.stocks);
        let covers = if self.covers_it() {
            String::from_str("the whole order")
        } else if self.missing.len() == 0 {
            cat2(what.as_str(), ", but short of coin")
        } else {
            let not = few_of(&self.missing);
            cat4(what.as_str(), " (not ", not.as_str(), ")")
        };
        if self.selling == 0 {
            covers
        } else {
            let n = count(self.selling as u128);
            cat4(covers.as_str(), "; ", n.as_str(), " thing(s) to sell here")
        }
    }

    /// Said aloud, so whoever is watching knows why the party did or did not
    /// set off.
    pub fn tell(&self) -> (r: String)
        ensures
            r@ == self@.told_as(),
    {
        let asked = count(self.stocks.len() as u128 + self.missing.len() as u128);
        let have = count(self.stocks.len() as u128);
        let mut out = cat4(have.as_str(), " of ", asked.as_str(), " on the shelf");
        let ghost shelf = out@;
        let ghost bill = if self.bill > 0 {
            ", "@ + counted(self.bill as nat) + " to buy"@
        } else {
            seq![]
        };
        if self.bill > 0 {
            let n = count(self.bill as u128);
            let part = cat3(", ", n.as_str(), " to buy");
            out.append(part.as_str());
        }
        assert(out@ =~= shelf + bill);
        let n = count(self.purse as u128);
        let part = cat3(", ", n.as_str(), " in hand");
        out.append(part.as_str());
        let ghost three = out@;
        let ghost sale = if self.selling > 0 {
            ", "@ + counted(self.takings as nat) + " for "@ + counted(self.selling as nat)
                + " item(s)"@
        } else {
            seq![]
        };
        if self.selling > 0 {
            let n = count(self.takings as u128);
            let m = count(self.selling as u128);
            let part = cat4(", ", n.as_str(), " for ", m.as_str());
            out.append(part.as_str());
            out.append(" item(s)");
        }
        assert(out@ =~= three + sale);
        let ghost four = out@;
        if self.missing.len() > 0 {
            let names = few_of(&self.missing);
            let part = cat2("; no ", names.as_str());
            out.append(part.as_str());
        } else {
            assert(out@ =~= four + Seq::<char>::empty());
        }
        out
    }
}

impl Errand {
    pub open spec fn spec_served_by(self, look: Look) -> bool {
        match self {
            Errand::Buy => look.worth_going(),
            Errand::Sell => look.selling > 0,
        }
    }

    /// Whether a trip with this forecast does what the errand is for.
    pub fn served_by(self, look: &Forecast) -> (r: bool)
        ensures
            r == self.spec_served_by(look@),
    {
        match self {
            Errand::Buy => look.worth_going(),
            Errand::Sell => look.selling > 0,
        }
    }
}

/// Whether a ware answers a need.
pub open spec fn answers(w: Ware, need: Need, needle: Seq<char>) -> bool {
    match need.kind {
        NeedKind::Named(_) => holds(w.name@, needle),
        NeedKind::Ammo(kind) => spec_ammo_stock(w.name@, kind),
        NeedKind::Component(wcid) => w.wcid == wcid,
    }
}

/// Which of the first `n` wares answers the need, the cheapest and of several
/// as cheap the first.
pub open spec fn ware_for(sells: Seq<Ware>, need: Need, needle: Seq<char>, n: nat) -> Option<int>
    decreases n,
{
    if n == 0 {
        None
    } else {
        let i = n - 1;
        let best = ware_for(sells, need, needle, i as nat);
        if !answers(sells[i], need, needle) {
            best
        } else if best is Some && sells[best->0].value <= sells[i].value {
            best
        } else {
            Some(i)
        }
    }
}

fn does_answer(w: &Ware, need: &Need, needle: &str) -> (r: bool)
    ensures
        r == answers(*w, *need, needle@),
{
    match &need.kind {
        NeedKind::Named(_) => contains_fold(w.name.as_str(), needle),
        NeedKind::Ammo(kind) => ammo_stock(w.name.as_str(), *kind),
        NeedKind::Component(wcid) => w.wcid == *wcid,
    }
}

/// The cheapest ware on this shelf that answers the need, if any.
pub fn shop_ware<'a>(shop: &'a Shop, need: &Need, needle: &str) -> (r: Option<&'a Ware>)
    ensures
        match r {
            Some(w) => {
                &&& ware_for(shop.sells@, *need, needle@, shop.sells@.len()) is Some
                &&& *w == shop.sells@[ware_for(shop.sells@, *need, needle@, shop.sells@.len())->0]
            },
            None => ware_for(shop.sells@, *need, needle@, shop.sells@.len()) is None,
        },
        match r {
            Some(w) => exists|i: int|
                #[trigger] cheapest_at(shop.sells@, *need, needle@, i) && *w == shop.sells@[i],
            None => none_answers(shop.sells@, *need, needle@),
        },
{
    proof {
        law_the_cheapest_ware_answers(shop.sells@, *need, needle@);
    }
    let mut best: Option<usize> = None;
    let mut i: usize = 0;
    while i < shop.sells.len()
        invariant
            i <= shop.sells.len(),
            match best {
                Some(k) => ware_for(shop.sells@, *need, needle@, i as nat) == Some(k as int) && k
                    < i,
                None => ware_for(shop.sells@, *need, needle@, i as nat) is None,
            },
        decreases shop.sells.len() - i,
    {
        if does_answer(&shop.sells[i], need, needle) {
            match best {
                Some(k) => {
                    if shop.sells[k].value > shop.sells[i].value {
                        best = Some(i);
                    }
                },
                None => {
                    best = Some(i);
                },
            }
        }
        i = i + 1;
    }
    match best {
        Some(k) => Some(&shop.sells[k]),
        None => None,
    }
}

/// What the first `n` wants come to at a shop.
pub open spec fn shopped(shop: Shop, wants: Seq<Want>, purse: u32, n: nat) -> Look
    decreases n,
{
    if n == 0 {
        Look {
            shop: shop.name,
            stocks: seq![],
            missing: seq![],
            bill: 0,
            cheapest: 0,
            purse,
            takings: 0,
            selling: 0,
        }
    } else {
        let f = shopped(shop, wants, purse, (n - 1) as nat);
        let need = *wants[n - 1].need;
        let ware = ware_for(shop.sells@, need, wants[n - 1].needle@, shop.sells@.len());
        if need.spec_may_buy_at(shop.name@) && ware is Some {
            let charge = shop.sells@[ware->0].charge;
            let unit: u32 = if charge == 0 {
                1
            } else {
                charge
            };
            Look {
                bill: capped(f.bill + capped(unit * need.want)),
                cheapest: if f.cheapest == 0 || unit < f.cheapest {
                    unit
                } else {
                    f.cheapest
                },
                stocks: f.stocks.push(need.name),
                ..f
            }
        } else {
            Look { missing: f.missing.push(need.name), ..f }
        }
    }
}

/// What selling the first `n` things adds to a forecast. `paid` is what the
/// counter gives for one of each, none where it gives nothing.
pub open spec fn fetched(
    shop: Shop,
    f: Look,
    salables: Seq<Salable>,
    paid: Seq<Option<u32>>,
    n: nat,
) -> Look
    decreases n,
{
    if n == 0 {
        f
    } else {
        let g = fetched(shop, f, salables, paid, (n - 1) as nat);
        let it = salables[n - 1];
        if it.spec_taken_by(shop.buys, shop.min_value, shop.max_value) && paid[n - 1] is Some {
            let all: u32 = if it.stack == 0 {
                1
            } else {
                it.stack
            };
            Look {
                selling: g.selling + 1,
                takings: capped(g.takings + capped(paid[n - 1]->0 * all)),
                ..g
            }
        } else {
            g
        }
    }
}

/// What a trip to a shop would buy, cost and fetch.
pub open spec fn foreseen(
    shop: Shop,
    wants: Seq<Want>,
    purse: u32,
    salables: Seq<Salable>,
    paid: Seq<Option<u32>>,
) -> Look {
    fetched(shop, shopped(shop, wants, purse, wants.len()), salables, paid, salables.len())
}

fn times(a: u32, b: u32) -> (r: u32)
    ensures
        r == capped(a * b),
{
    assert(a * b <= 0xffff_ffff * 0xffff_ffff) by (nonlinear_arith)
        requires
            0 <= a <= 0xffff_ffff,
            0 <= b <= 0xffff_ffff,
    ;
    let n: u64 = a as u64 * b as u64;
    if n > u32::MAX as u64 {
        u32::MAX
    } else {
        n as u32
    }
}

/// What a trip to `shop` would buy, cost and fetch. `wants` is the needs paired
/// with their names already folded, and `paid` what the counter gives for one
/// of each thing carried to sell.
///
/// A line that names its counter is only filled there: to every other shop it
/// reads as a line they do not carry. A counter's limits are about one of a
/// thing, and its payment is for all of them.
pub fn forecast(
    shop: &Shop,
    wants: &[Want],
    purse: u32,
    salables: &[Salable],
    paid: &[Option<u32>],
) -> (r: Forecast)
    requires
        salables@.len() == paid@.len(),
    ensures
        r@ == foreseen(*shop, wants@, purse, salables@, paid@),
{
    let mut f = Forecast {
        shop: shop.name.clone(),
        stocks: Vec::new(),
        missing: Vec::new(),
        bill: 0,
        cheapest: 0,
        purse,
        takings: 0,
        selling: 0,
    };
    assert(f@ =~= shopped(*shop, wants@, purse, 0));
    let mut i: usize = 0;
    while i < wants.len()
        invariant
            i <= wants.len(),
            f@ == shopped(*shop, wants@, purse, i as nat),
            f.selling == 0,
        decreases wants.len() - i,
    {
        let need = wants[i].need;
        let ware = if need.may_buy_at(shop.name.as_str()) {
            shop_ware(shop, need, wants[i].needle.as_str())
        } else {
            None
        };
        match ware {
            Some(w) => {
                let unit: u32 = if w.charge == 0 {
                    1
                } else {
                    w.charge
                };
                f.bill = f.bill.saturating_add(times(unit, need.want));
                if f.cheapest == 0 || unit < f.cheapest {
                    f.cheapest = unit;
                }
                f.stocks.push(need.name.clone());
            },
            None => {
                f.missing.push(need.name.clone());
            },
        }
        assert(f@ =~= shopped(*shop, wants@, purse, (i + 1) as nat));
        i = i + 1;
    }
    let ghost bought = f@;
    i = 0;
    while i < salables.len()
        invariant
            i <= salables.len(),
            salables@.len() == paid@.len(),
            f@ == fetched(*shop, bought, salables@, paid@, i as nat),
            f.selling <= i,
        decreases salables.len() - i,
    {
        let it = salables[i];
        if it.taken_by(shop.buys, shop.min_value, shop.max_value) {
            if let Some(p) = paid[i] {
                f.selling = f.selling + 1;
                let all: u32 = if it.stack == 0 {
                    1
                } else {
                    it.stack
                };
                f.takings = f.takings.saturating_add(times(p, all));
            }
        }
        assert(f@ =~= fetched(*shop, bought, salables@, paid@, (i + 1) as nat));
        i = i + 1;
    }
    f
}

} // verus!
