//! What experience is spent on: the best buy each time, and for a large pool
//! many ranks of it at once, spread as buying a rank at a time spreads it.

use crate::advance::Ladder;
use crate::single::Single;
use vstd::prelude::*;

verus! {

/// A pool worth fewer of the chosen stat's next rank than this buys one.
pub const BATCH_FROM: i64 = 10;

/// One thing experience can be spent on.
#[derive(Clone, Copy, Debug, PartialEq, Eq, Structural)]
pub enum Raise {
    Skill(u32),
    /// Which attribute: Strength, Endurance and so on from nought.
    Attribute(usize),
    /// Which vital: Health, Stamina, Mana from nought.
    Vital(usize),
}

/// A rank on offer: what it is, what it costs, and how much it matters (1 for
/// the skill the character fights with, less for the rest).
#[derive(Clone, Copy, Debug, PartialEq, Eq, Structural)]
pub struct Offer {
    pub raise: Raise,
    pub cost: u32,
    pub weight: Single,
}

/// A stat in the running for the pool: the whole of its ladder, how much a rank
/// of it matters, and whether it may be bought now.
#[derive(Clone, Copy, Debug)]
pub struct Climb<'a> {
    pub raise: Raise,
    pub ladder: Ladder<'a>,
    pub weight: Single,
    /// Not to be bought for now, but its share of the pool is kept for it all
    /// the same.
    pub held: bool,
}

/// Ranks of one stat bought in one message, and the experience they cost.
#[derive(Clone, Copy, Debug, PartialEq, Eq, Structural)]
pub struct Batch {
    pub ranks: u32,
    pub xp: u32,
}

/// A rank that could be bought: what it costs, and what it costs for what it is
/// worth.
#[derive(Clone, Copy)]
pub struct Bid {
    pub cost: u32,
    pub dear: Single,
}

/// A rank of some cost and weight as a buy; one that matters not at all is
/// none.
pub open spec fn bid(cost: u32, weight: Single) -> Option<Bid> {
    if (Single { bits: 0 }).below(weight) {
        Some(Bid { cost, dear: Single::whole(cost as int).quotient(weight) })
    } else {
        None
    }
}

/// The better buy of two: the cheaper for what it is worth, and of two as good,
/// the cheaper outright.
pub open spec fn better(a: Bid, b: Bid) -> bool {
    a.dear.place() < b.dear.place() || (a.dear.place() == b.dear.place() && a.cost < b.cost)
}

/// Which of the first `n` is the best buy, the first of several as good.
pub open spec fn best(line: Seq<Option<Bid>>, n: nat) -> Option<int>
    decreases n,
{
    if n == 0 {
        None
    } else {
        let i = n - 1;
        let so_far = best(line, i as nat);
        if line[i] is None {
            so_far
        } else if so_far is Some && !better(line[i]->0, line[so_far->0]->0) {
            so_far
        } else {
            Some(i)
        }
    }
}

pub proof fn lemma_best(line: Seq<Option<Bid>>, n: nat)
    requires
        n <= line.len(),
    ensures
        match best(line, n) {
            Some(i) => {
                &&& 0 <= i < n
                &&& line[i] is Some
                &&& forall|j: int|
                    0 <= j < n && (#[trigger] line[j]) is Some ==> !better(line[j]->0, line[i]->0)
                &&& forall|j: int|
                    0 <= j < i && (#[trigger] line[j]) is Some ==> better(line[i]->0, line[j]->0)
            },
            None => forall|j: int| 0 <= j < n ==> (#[trigger] line[j]) is None,
        },
    decreases n,
{
    if n > 0 {
        lemma_best(line, (n - 1) as nat);
    }
}

fn make_bid(cost: u32, weight: Single) -> (r: Option<Bid>)
    ensures
        r == bid(cost, weight),
{
    if (Single { bits: 0 }).lt(weight) {
        Some(Bid { cost, dear: Single::from_u32(cost).over(weight) })
    } else {
        None
    }
}

fn is_better(a: &Bid, b: &Bid) -> (r: bool)
    ensures
        r == better(*a, *b),
{
    if a.dear.stands_before(b.dear) {
        true
    } else if b.dear.stands_before(a.dear) {
        false
    } else {
        a.cost < b.cost
    }
}

/// Of some ranks, which is the best buy.
fn best_buy(line: &Vec<Option<Bid>>) -> (r: Option<usize>)
    ensures
        match r {
            Some(i) => best(line@, line@.len()) == Some(i as int) && i < line.len()
                && line@[i as int] is Some,
            None => best(line@, line@.len()) is None,
        },
{
    let mut so_far: Option<usize> = None;
    let mut i: usize = 0;
    while i < line.len()
        invariant
            i <= line.len(),
            match so_far {
                Some(k) => best(line@, i as nat) == Some(k as int) && k < i && line@[k as int]
                    is Some,
                None => best(line@, i as nat) is None,
            },
        decreases line.len() - i,
    {
        if let Some(b) = line[i] {
            match so_far {
                Some(k) => {
                    if let Some(c) = line[k] {
                        if is_better(&b, &c) {
                            so_far = Some(i);
                        }
                    }
                },
                None => {
                    so_far = Some(i);
                },
            }
        }
        i = i + 1;
    }
    so_far
}

/// Ranks on offer as buys.
pub open spec fn offered(offers: Seq<Offer>) -> Seq<Option<Bid>> {
    offers.map_values(|o: Offer| bid(o.cost, o.weight))
}

/// The rank worth buying: the best buy, where the pool covers it.
pub open spec fn chosen(offers: Seq<Offer>, xp: int) -> Option<Raise> {
    match best(offered(offers), offers.len()) {
        Some(i) => if offers[i].cost <= xp {
            Some(offers[i].raise)
        } else {
            None
        },
        None => None,
    }
}

/// The rank worth buying with `xp` to spend: the cheapest for what it is worth,
/// and nothing while the pool is short of it. The pool saves for the best buy
/// rather than going on a worse one that fits.
pub fn choose_raise(offers: &[Offer], xp: i64) -> (r: Option<Raise>)
    ensures
        r == chosen(offers@, xp as int),
{
    let mut line: Vec<Option<Bid>> = Vec::new();
    let mut i: usize = 0;
    while i < offers.len()
        invariant
            i <= offers.len(),
            line@ == offered(offers@.take(i as int)),
        decreases offers.len() - i,
    {
        line.push(make_bid(offers[i].cost, offers[i].weight));
        assert(line@ =~= offered(offers@.take(i + 1)));
        i = i + 1;
    }
    assert(offers@.take(i as int) =~= offers@);
    match best_buy(&line) {
        Some(k) => {
            if offers[k].cost as i64 <= xp {
                Some(offers[k].raise)
            } else {
                None
            }
        },
        None => None,
    }
}

/// The next rank of a stat that stands at `rank`, as a buy.
pub open spec fn next_bid(c: Climb, rank: u32) -> Option<Bid> {
    match c.ladder.spec_step(rank) {
        Some(cost) => bid(cost, c.weight),
        None => None,
    }
}

/// The next rank of each stat, as a buy.
pub open spec fn next_bids(field: Seq<Climb>, at: Seq<u32>) -> Seq<Option<Bid>> {
    Seq::new(field.len(), |i: int| next_bid(field[i], at[i]))
}

/// How many ranks the first `n` stats have left to go.
pub open spec fn to_go(field: Seq<Climb>, at: Seq<u32>, n: nat) -> nat
    decreases n,
{
    if n == 0 {
        0
    } else {
        let top = field[n - 1].ladder.table@.len();
        to_go(field, at, (n - 1) as nat) + if at[n - 1] < top {
            (top - at[n - 1]) as nat
        } else {
            0
        }
    }
}

pub proof fn lemma_to_go(field: Seq<Climb>, at: Seq<u32>, i: int, n: nat)
    requires
        0 <= i < field.len(),
        n <= field.len() == at.len(),
        at[i] + 1 < field[i].ladder.table@.len(),
        at[i] < u32::MAX,
    ensures
        i < n ==> to_go(field, at.update(i, (at[i] + 1) as u32), n) < to_go(field, at, n),
        i >= n ==> to_go(field, at.update(i, (at[i] + 1) as u32), n) == to_go(field, at, n),
    decreases n,
{
    if n > 0 {
        lemma_to_go(field, at, i, (n - 1) as nat);
    }
}

/// The ranks that stats at `at` come to with `left` spent on them a rank at a
/// time, the best buy each time until the best buy costs more than is left; and
/// what is left then.
pub open spec fn planned(field: Seq<Climb>, at: Seq<u32>, left: int) -> (Seq<u32>, int)
    decreases to_go(field, at, field.len()),
    when field.len() == at.len()
{
    let line = next_bids(field, at);
    match best(line, line.len()) {
        Some(i) => {
            let cost = line[i]->0.cost;
            if cost <= left && 0 <= i < field.len() && at[i] + 1 < field[i].ladder.table@.len()
                && at[i] < u32::MAX {
                proof {
                    lemma_to_go(field, at, i, field.len());
                }
                planned(field, at.update(i, (at[i] + 1) as u32), left - cost)
            } else {
                (at, left)
            }
        },
        None => (at, left),
    }
}

/// Where the stats of a field stand.
pub open spec fn standing(field: Seq<Climb>) -> Seq<u32> {
    field.map_values(|c: Climb| c.ladder.ranks)
}

fn make_next_bid(c: &Climb, rank: u32) -> (r: Option<Bid>)
    ensures
        r == next_bid(*c, rank),
{
    match c.ladder.step(rank) {
        Some(cost) => make_bid(cost, c.weight),
        None => None,
    }
}

/// The rank each stat of `field` is at once `xp` is spent on paper a rank at a
/// time, as [`choose_raise`] spends it.
pub fn plan(field: &[Climb], xp: i64) -> (r: Vec<u32>)
    ensures
        r@ == planned(field@, standing(field@), xp as int).0,
        r.len() == field.len(),
{
    let mut at: Vec<u32> = Vec::new();
    let mut line: Vec<Option<Bid>> = Vec::new();
    let mut i: usize = 0;
    while i < field.len()
        invariant
            i <= field.len(),
            at.len() == i,
            line.len() == i,
            forall|k: int| 0 <= k < i ==> (#[trigger] at@[k]) == field@[k].ladder.ranks,
            forall|k: int| 0 <= k < i ==> (#[trigger] line@[k]) == next_bid(field@[k], at@[k]),
        decreases field.len() - i,
    {
        let rank: u32 = field[i].ladder.ranks;
        at.push(rank);
        line.push(make_next_bid(&field[i], rank));
        i = i + 1;
    }
    assert(at@ =~= standing(field@));
    let mut left: i64 = xp;
    let ghost whole = planned(field@, at@, left as int).0;
    loop
        invariant
            at.len() == field.len(),
            line@ =~= next_bids(field@, at@),
            planned(field@, at@, left as int).0 == whole,
        ensures
            at@ == whole,
            at.len() == field.len(),
        decreases to_go(field@, at@, field@.len()),
    {
        proof {
            lemma_best(line@, line@.len());
        }
        match best_buy(&line) {
            Some(k) => {
                let cost: u32 = match line[k] {
                    Some(b) => b.cost,
                    None => 0,
                };
                if cost as i64 > left {
                    break;
                }
                proof {
                    assert(next_bid(field@[k as int], at@[k as int]) is Some);
                    lemma_to_go(field@, at@, k as int, field@.len());
                }
                let ghost before = at@;
                let rank: u32 = at[k] + 1;
                at.set(k, rank);
                line.set(k, make_next_bid(&field[k], rank));
                left = left - cost as i64;
                assert(at@ =~= before.update(k as int, (before[k as int] + 1) as u32));
            },
            None => {
                break;
            },
        }
    }
    at
}

/// The stats that the paper run raises and that may be bought now, as buys of
/// their next ranks.
pub open spec fn for_sale(field: Seq<Climb>, to: Seq<u32>) -> Seq<Option<Bid>> {
    Seq::new(
        field.len(),
        |i: int|
            if !field[i].held && to[i] > field[i].ladder.ranks {
                next_bid(field[i], field[i].ladder.ranks)
            } else {
                None
            },
    )
}

/// The ranks bought of stat `i`, with `xp` to spend and the paper run taking
/// it to `to`.
pub open spec fn bought_to(c: Climb, first: u32, to: u32, xp: int) -> int {
    if xp < first * BATCH_FROM {
        c.ladder.ranks + 1
    } else {
        to as int
    }
}

/// What to raise in one message: of the stats that the paper run raises and
/// that may be bought now, the best buy, by as many ranks as the paper run
/// gives it, or by one where the pool is not worth many of them.
pub open spec fn batched(field: Seq<Climb>, xp: int) -> Option<(Raise, Batch)> {
    let to = planned(field, standing(field), xp).0;
    let line = for_sale(field, to);
    match best(line, line.len()) {
        Some(i) => {
            let c = field[i];
            let top = bought_to(c, line[i]->0.cost, to[i], xp);
            match c.ladder.spec_cost_to(top as u32) {
                Some(cost) => Some(
                    (c.raise, Batch { ranks: (top - c.ladder.ranks) as u32, xp: cost }),
                ),
                None => None,
            }
        },
        None => None,
    }
}

/// What to raise in one message, and by how many ranks, with `xp` to spend and
/// `field` every stat in the running for it.
///
/// The whole pool is spent on paper exactly as it would be a rank at a time
/// (see [`plan`]), and the best buy of the stats that paper run raises is given
/// the ranks it gives it, no more. A stat held back for now is spent on in the
/// paper run like any other, and never sent: its share waits for it. A pool
/// worth fewer than [`BATCH_FROM`] of the chosen stat's next rank buys the one
/// rank. None when the paper run raises nothing that may be bought now.
pub fn batch_raise(field: &[Climb], xp: i64) -> (r: Option<(Raise, Batch)>)
    ensures
        r == batched(field@, xp as int),
{
    let to = plan(field, xp);
    let mut line: Vec<Option<Bid>> = Vec::new();
    let mut i: usize = 0;
    while i < field.len()
        invariant
            i <= field.len(),
            to.len() == field.len(),
            line.len() == i,
            forall|k: int| 0 <= k < i ==> (#[trigger] line@[k]) == for_sale(field@, to@)[k],
        decreases field.len() - i,
    {
        let c = &field[i];
        if !c.held && to[i] > c.ladder.ranks {
            line.push(make_next_bid(c, c.ladder.ranks));
        } else {
            line.push(None);
        }
        i = i + 1;
    }
    assert(line@ =~= for_sale(field@, to@));
    match best_buy(&line) {
        Some(k) => {
            let c = &field[k];
            let first: u32 = match line[k] {
                Some(b) => b.cost,
                None => 0,
            };
            let top: u32 = if xp < first as i64 * BATCH_FROM {
                c.ladder.ranks + 1
            } else {
                to[k]
            };
            match c.ladder.cost_to(top) {
                Some(cost) => Some((c.raise, Batch { ranks: top - c.ladder.ranks, xp: cost })),
                None => None,
            }
        },
        None => None,
    }
}

} // verus!
