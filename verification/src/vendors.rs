//! Where a run to town goes: the counter worth walking to, among all there are.

use crate::counters::{forecast, foreseen, Errand, Forecast, Look, Shop, Want};
use crate::place::Spot;
use crate::single::Single;
use crate::text::{alike, lower_case, same_fold, to_lower, trim, trimmed};
use crate::wares::{Need, NeedKind, Salable};
use vstd::prelude::*;
use vstd::string::*;

verus! {

/// The largest number there is.
pub const MOST: u32 = 0x7f7f_ffff;

/// Without end.
pub const ENDLESS: u32 = 0x7f80_0000;

/// One metre.
pub const METRE: u32 = 0x3f80_0000;

/// How far to look for a shop before settling for a nearer one with less on its
/// shelves, in metres: the town we are in, the towns around it, then a long
/// walk.
pub const IN_TOWN: u32 = 0x4416_0000;

pub const ROUND_ABOUT: u32 = 0x453b_8000;

pub const LONG_WALK: u32 = 0x466a_6000;

/// The rings below a cap, and the cap.
pub open spec fn rings(cap: Single) -> Seq<Single> {
    let town = if (Single { bits: IN_TOWN }).below(cap) {
        seq![Single { bits: IN_TOWN }]
    } else {
        seq![]
    };
    let about = if (Single { bits: ROUND_ABOUT }).below(cap) {
        seq![Single { bits: ROUND_ABOUT }]
    } else {
        seq![]
    };
    let long = if (Single { bits: LONG_WALK }).below(cap) {
        seq![Single { bits: LONG_WALK }]
    } else {
        seq![]
    };
    town + about + long + seq![cap]
}

pub open spec fn cap_of(within: Option<Single>) -> Single {
    match within {
        Some(w) => w,
        None => Single { bits: ENDLESS },
    }
}

/// The distances to search, widening, never past `within`.
///
/// The last one is `within` itself (or everything), so a character with nothing
/// nearby still finds a shop rather than standing still.
pub fn vendor_rings(within: Option<Single>) -> (r: Vec<Single>)
    ensures
        r@ == rings(cap_of(within)),
{
    let cap = match within {
        Some(w) => w,
        None => Single { bits: ENDLESS },
    };
    let mut out: Vec<Single> = Vec::new();
    if (Single { bits: IN_TOWN }).lt(cap) {
        out.push(Single { bits: IN_TOWN });
    }
    if (Single { bits: ROUND_ABOUT }).lt(cap) {
        out.push(Single { bits: ROUND_ABOUT });
    }
    if (Single { bits: LONG_WALK }).lt(cap) {
        out.push(Single { bits: LONG_WALK });
    }
    out.push(cap);
    assert(out@ =~= rings(cap));
    out
}

/// The search widens ring by ring, never looks past the cap, and always has the
/// cap itself to fall back on.
pub proof fn law_rings_widen_to_the_cap(within: Option<Single>)
    requires
        within is Some ==> !within->0.nan(),
    ensures
        rings(cap_of(within)).len() > 0,
        rings(cap_of(within)).last() == cap_of(within),
        forall|i: int, j: int|
            0 <= i < j < rings(cap_of(within)).len() ==> (#[trigger] rings(cap_of(within))[i]).below(
                #[trigger] rings(cap_of(within))[j],
            ),
        forall|i: int|
            0 <= i < rings(cap_of(within)).len() ==> (#[trigger] rings(cap_of(within))[i]).at_most(
                cap_of(within),
            ),
{
}

/// Which of two to take.
#[derive(Clone, Copy, Debug, PartialEq, Eq, Structural)]
pub enum Choice {
    First,
    Either,
    Second,
}

/// Which of two whole numbers is the smaller.
pub open spec fn lower_first(a: int, b: int) -> Choice {
    if a < b {
        Choice::First
    } else if a == b {
        Choice::Either
    } else {
        Choice::Second
    }
}

/// The first word where it settles the matter, and else the second.
pub open spec fn or_else(first: Choice, second: Choice) -> Choice {
    if first == Choice::Either {
        second
    } else {
        first
    }
}

pub open spec fn yes(b: bool) -> int {
    if b {
        1
    } else {
        0
    }
}

/// The order of two counters for a trip to buy, how near they are left aside.
pub open spec fn by_order(a: Look, b: Look) -> Choice {
    or_else(
        lower_first(yes(b.covers_it()), yes(a.covers_it())),
        or_else(
            lower_first(b.stocks.len() as int, a.stocks.len() as int),
            lower_first(b.takings as int, a.takings as int),
        ),
    )
}

/// The order of two counters for an errand.
pub open spec fn by_worth(errand: Errand, a: Look, near_a: Single, b: Look, near_b: Single) -> Choice {
    let worth = match errand {
        Errand::Buy => by_order(a, b),
        Errand::Sell => or_else(
            lower_first(b.takings as int, a.takings as int),
            or_else(lower_first(b.selling, a.selling), by_order(a, b)),
        ),
    };
    or_else(worth, lower_first(near_a.place(), near_b.place()))
}

fn order_u32(a: u32, b: u32) -> (r: Choice)
    ensures
        r == lower_first(a as int, b as int),
{
    if a < b {
        Choice::First
    } else if a == b {
        Choice::Either
    } else {
        Choice::Second
    }
}

fn order_usize(a: usize, b: usize) -> (r: Choice)
    ensures
        r == lower_first(a as int, b as int),
{
    if a < b {
        Choice::First
    } else if a == b {
        Choice::Either
    } else {
        Choice::Second
    }
}

fn order_single(a: Single, b: Single) -> (r: Choice)
    ensures
        r == lower_first(a.place(), b.place()),
{
    if a.stands_before(b) {
        Choice::First
    } else if b.stands_before(a) {
        Choice::Second
    } else {
        Choice::Either
    }
}

fn first_settles(first: Choice, second: Choice) -> (r: Choice)
    ensures
        r == or_else(first, second),
{
    match first {
        Choice::Either => second,
        _ => first,
    }
}

/// Which of two counters is worth walking to, better first.
///
/// The whole order in one stop beats part of it, then more of the order beats
/// less, then what the counter pays, and distance settles what is left. A trip
/// to sell turns it round: what the counter pays for the loot comes first, then
/// how much of the loot it takes, and what it stocks only settles ties.
pub fn better_counter(errand: Errand, a: (&Forecast, Single), b: (&Forecast, Single)) -> (r: Choice)
    ensures
        r == by_worth(errand, a.0@, a.1, b.0@, b.1),
{
    let (fa, near_a) = a;
    let (fb, near_b) = b;
    let all_a: u32 = if fa.covers_it() {
        1
    } else {
        0
    };
    let all_b: u32 = if fb.covers_it() {
        1
    } else {
        0
    };
    let to_buy = first_settles(
        order_u32(all_b, all_a),
        first_settles(
            order_usize(fb.stocks.len(), fa.stocks.len()),
            order_u32(fb.takings, fa.takings),
        ),
    );
    let worth = match errand {
        Errand::Buy => to_buy,
        Errand::Sell => first_settles(
            order_u32(fb.takings, fa.takings),
            first_settles(order_usize(fb.selling, fa.selling), to_buy),
        ),
    };
    first_settles(worth, order_single(near_a, near_b))
}

/// A counter as the world has it: the shop, where it stands, whether this
/// character may trade there, whether it is being left alone for a while, and
/// what it gives for one of each thing carried to sell.
#[derive(Clone, Debug)]
pub struct Stand {
    pub shop: Shop,
    pub at: Spot,
    pub open: bool,
    pub held: bool,
    pub paid: Vec<Option<u32>>,
}

/// A counter of which nothing is known but its name and where it stands.
#[derive(Clone, Debug)]
pub struct Landmark {
    pub name: String,
    pub at: Spot,
    pub held: bool,
}

/// Somewhere the character can cheaply be, and how.
#[derive(Clone, Debug)]
pub struct Way {
    pub at: Spot,
    pub name: String,
}

/// What the next counter of a run is chosen for, and among which.
#[derive(Clone, Copy)]
pub struct Stop<'a> {
    pub errand: Errand,
    /// No further than this from a way out, once a run is already out.
    pub within: Option<Single>,
    /// The counters this run has already called at, by position.
    pub visited: &'a Vec<Spot>,
}

/// How far a place is from the nearest of the first `n` ways out.
pub open spec fn reach_of(at: Spot, ways: Seq<Way>, n: nat) -> Single
    decreases n,
{
    if n == 0 {
        Single { bits: MOST }
    } else {
        reach_of(at, ways, (n - 1) as nat).smaller(at.spec_away(ways[n - 1].at))
    }
}

/// How far a place is from the nearest way out.
pub fn reach(at: Spot, ways: &[Way]) -> (r: Single)
    ensures
        r == reach_of(at, ways@, ways@.len()),
{
    let mut r = Single { bits: MOST };
    let mut i: usize = 0;
    while i < ways.len()
        invariant
            i <= ways.len(),
            r == reach_of(at, ways@, i as nat),
        decreases ways.len() - i,
    {
        r = r.min(at.away(ways[i].at));
        i = i + 1;
    }
    r
}

/// The run has called at `at` already.
pub open spec fn called_at(visited: Seq<Spot>, at: Spot) -> bool {
    exists|i: int|
        0 <= i < visited.len() && (#[trigger] visited[i]).spec_away(at).below(
            Single { bits: METRE },
        )
}

fn was_called_at(visited: &Vec<Spot>, at: Spot) -> (r: bool)
    ensures
        r == called_at(visited@, at),
{
    let mut i: usize = 0;
    while i < visited.len()
        invariant
            i <= visited.len(),
            forall|k: int|
                0 <= k < i ==> !(#[trigger] visited@[k]).spec_away(at).below(
                    Single { bits: METRE },
                ),
        decreases visited.len() - i,
    {
        if visited[i].away(at).lt(Single { bits: METRE }) {
            return true;
        }
        i = i + 1;
    }
    false
}

/// A counter at `at` may be walked to.
pub open spec fn may_walk_to(at: Spot, held: bool, ways: Seq<Way>, stop: Stop) -> bool {
    &&& stop.within is Some ==> reach_of(at, ways, ways.len()).at_most(stop.within->0)
    &&& !called_at(stop.visited@, at)
    &&& !held
}

fn is_allowed(at: Spot, held: bool, ways: &[Way], stop: &Stop) -> (r: bool)
    ensures
        r == may_walk_to(at, held, ways@, *stop),
{
    let near = match stop.within {
        Some(w) => reach(at, ways).le(w),
        None => true,
    };
    near && !was_called_at(stop.visited, at) && !held
}

pub open spec fn look_at(c: Stand, wants: Seq<Want>, purse: u32, salables: Seq<Salable>) -> Look {
    foreseen(c.shop, wants, purse, salables, c.paid@)
}

/// Which of the first `n` counters is the best of those that are in the running
/// and serve the errand, the first of several as good. `near` is how far off
/// each is, none for one that is not in the running.
pub open spec fn best_counter(
    counters: Seq<Stand>,
    near: Seq<Option<Single>>,
    errand: Errand,
    wants: Seq<Want>,
    purse: u32,
    salables: Seq<Salable>,
    n: nat,
) -> Option<int>
    decreases n,
{
    if n == 0 {
        None
    } else {
        let i = n - 1;
        let best = best_counter(counters, near, errand, wants, purse, salables, i as nat);
        let look = look_at(counters[i], wants, purse, salables);
        if near[i] is None || !errand.spec_served_by(look) {
            best
        } else if best is Some && !is_first(
            errand,
            look,
            near[i]->0,
            look_at(counters[best->0], wants, purse, salables),
            near[best->0]->0,
        ) {
            best
        } else {
            Some(i)
        }
    }
}

pub open spec fn is_first(errand: Errand, a: Look, near_a: Single, b: Look, near_b: Single) -> bool {
    by_worth(errand, a, near_a, b, near_b) is First
}

fn comes_first(errand: Errand, a: (&Forecast, Single), b: (&Forecast, Single)) -> (r: bool)
    ensures
        r == is_first(errand, a.0@, a.1, b.0@, b.1),
{
    match better_counter(errand, a, b) {
        Choice::First => true,
        _ => false,
    }
}

/// What every counter gives for the things carried to sell is known.
pub open spec fn all_priced(counters: Seq<Stand>, salables: Seq<Salable>) -> bool {
    forall|i: int|
        0 <= i < counters.len() ==> (#[trigger] counters[i]).paid@.len() == salables.len()
}

/// The best of these counters for the errand, each with how far off it is (none
/// for one not in the running), and the forecast it was chosen on; `None` when
/// none of them serves it.
pub fn choose_counter(
    counters: &[Stand],
    near: &[Option<Single>],
    errand: Errand,
    wants: &[Want],
    purse: u32,
    salables: &[Salable],
) -> (r: Option<(usize, Forecast)>)
    requires
        all_priced(counters@, salables@),
        counters@.len() == near@.len(),
    ensures
        match r {
            Some((k, f)) => {
                &&& best_counter(
                    counters@,
                    near@,
                    errand,
                    wants@,
                    purse,
                    salables@,
                    counters@.len(),
                ) == Some(k as int)
                &&& k < counters@.len()
                &&& f@ == look_at(counters@[k as int], wants@, purse, salables@)
            },
            None => best_counter(
                counters@,
                near@,
                errand,
                wants@,
                purse,
                salables@,
                counters@.len(),
            ) is None,
        },
{
    let mut best: Option<(usize, Single, Forecast)> = None;
    let mut i: usize = 0;
    while i < counters.len()
        invariant
            i <= counters.len(),
            all_priced(counters@, salables@),
            counters@.len() == near@.len(),
            match best {
                Some((k, far, f)) => {
                    &&& best_counter(
                        counters@,
                        near@,
                        errand,
                        wants@,
                        purse,
                        salables@,
                        i as nat,
                    ) == Some(k as int)
                    &&& k < i
                    &&& near@[k as int] == Some(far)
                    &&& f@ == look_at(counters@[k as int], wants@, purse, salables@)
                },
                None => best_counter(counters@, near@, errand, wants@, purse, salables@, i as nat)
                    is None,
            },
        decreases counters.len() - i,
    {
        if let Some(far) = near[i] {
            let c = &counters[i];
            let f = forecast(&c.shop, wants, purse, salables, c.paid.as_slice());
            if errand.served_by(&f) {
                let first = match &best {
                    Some((_, other, g)) => comes_first(errand, (&f, far), (g, *other)),
                    None => true,
                };
                if first {
                    best = Some((i, far, f));
                }
            }
        }
        i = i + 1;
    }
    match best {
        Some((k, _, f)) => Some((k, f)),
        None => None,
    }
}

/// A need with its name folded, as the shelves are searched for it.
pub open spec fn needle_of(need: Need) -> Seq<char> {
    match need.kind {
        NeedKind::Named(t) => lower_case(trimmed(t@)),
        _ => seq![],
    }
}

/// `wants` are those of the first `n` needs that can be bought and of which
/// some are wanted, each with its name folded.
pub open spec fn are_wants(wants: Seq<Want>, needs: Seq<Need>, n: nat) -> bool
    decreases n,
{
    if n == 0 {
        wants.len() == 0
    } else {
        let need = needs[n - 1];
        if need.want > 0 && need.buyable {
            &&& wants.len() > 0
            &&& *wants.last().need == need
            &&& wants.last().needle@ == needle_of(need)
            &&& are_wants(wants.drop_last(), needs, (n - 1) as nat)
        } else {
            are_wants(wants, needs, (n - 1) as nat)
        }
    }
}

/// Those of some needs that can be bought and of which some are wanted, each
/// with its name folded.
pub fn wants_of(needs: &[Need]) -> (r: Vec<Want>)
    ensures
        are_wants(r@, needs@, needs@.len()),
{
    let mut r: Vec<Want> = Vec::new();
    let mut i: usize = 0;
    while i < needs.len()
        invariant
            i <= needs.len(),
            are_wants(r@, needs@, i as nat),
        decreases needs.len() - i,
    {
        let need = &needs[i];
        if need.want > 0 && need.buyable {
            let needle = match &need.kind {
                NeedKind::Named(t) => to_lower(trim(t.as_str())),
                _ => String::new(),
            };
            let ghost so_far = r@;
            r.push(Want { need, needle });
            assert(r@.drop_last() =~= so_far);
            assert(r@.last().needle@ =~= needle_of(needs@[i as int]));
        }
        i = i + 1;
    }
    r
}

/// How far off each counter is, none for one that is not in the running.
pub open spec fn in_ring(stands: Seq<Stand>, ways: Seq<Way>, stop: Stop, ring: Single) -> Seq<
    Option<Single>,
> {
    stands.map_values(
        |s: Stand|
            if may_walk_to(s.at, s.held, ways, stop) && reach_of(s.at, ways, ways.len()).at_most(
                ring,
            ) && s.open {
                Some(reach_of(s.at, ways, ways.len()))
            } else {
                None
            },
    )
}

fn within_ring(stands: &[Stand], ways: &[Way], stop: &Stop, ring: Single) -> (r: Vec<Option<Single>>)
    ensures
        r@ == in_ring(stands@, ways@, *stop, ring),
{
    let mut r: Vec<Option<Single>> = Vec::new();
    let mut i: usize = 0;
    while i < stands.len()
        invariant
            i <= stands.len(),
            r@ == in_ring(stands@.take(i as int), ways@, *stop, ring),
        decreases stands.len() - i,
    {
        let s = &stands[i];
        let far = reach(s.at, ways);
        if is_allowed(s.at, s.held, ways, stop) && far.le(ring) && s.open {
            r.push(Some(far));
        } else {
            r.push(None);
        }
        assert(r@ =~= in_ring(stands@.take(i + 1), ways@, *stop, ring));
        i = i + 1;
    }
    assert(stands@.take(i as int) =~= stands@);
    r
}

/// What the search for a counter knows of the world and the character.
pub struct Field<'a> {
    pub stands: &'a [Stand],
    pub marks: &'a [Landmark],
    pub ways: &'a [Way],
    /// The counter the player has said to sell at, if they have.
    pub named: Option<String>,
    /// Coin and notes in hand.
    pub purse: u32,
    pub salables: &'a [Salable],
}

/// The first counter from `i` on of the name that the player has said to sell
/// at, of those that may be walked to.
pub open spec fn named_stand(f: Field, stop: Stop, i: int) -> Option<int>
    decreases f.stands@.len() - i,
{
    if f.named is None || i >= f.stands@.len() {
        None
    } else {
        let s = f.stands@[i];
        if s.open && may_walk_to(s.at, s.held, f.ways@, stop) && alike(s.shop.name@, f.named->0@) {
            Some(i)
        } else {
            named_stand(f, stop, i + 1)
        }
    }
}

/// The counter found in the rings from the `k`th on: the best of the first ring
/// that has any that serves the errand.
pub open spec fn ring_stand(f: Field, stop: Stop, wants: Seq<Want>, k: int) -> Option<int>
    decreases rings(cap_of(stop.within)).len() - k,
{
    let all = rings(cap_of(stop.within));
    if k >= all.len() {
        None
    } else {
        let here = best_counter(
            f.stands@,
            in_ring(f.stands@, f.ways@, stop, all[k]),
            stop.errand,
            wants,
            f.purse,
            f.salables@,
            f.stands@.len(),
        );
        if here is Some {
            here
        } else {
            ring_stand(f, stop, wants, k + 1)
        }
    }
}

/// Which of the first `n` landmarks that may be walked to is the nearest to a
/// way out.
pub open spec fn nearest_mark(f: Field, stop: Stop, n: nat) -> Option<int>
    decreases n,
{
    if n == 0 {
        None
    } else {
        let i = n - 1;
        let best = nearest_mark(f, stop, i as nat);
        let m = f.marks@[i];
        if !may_walk_to(m.at, m.held, f.ways@, stop) {
            best
        } else if best is Some && reach_of(f.marks@[best->0].at, f.ways@, f.ways@.len()).place()
            <= reach_of(m.at, f.ways@, f.ways@.len()).place() {
            best
        } else {
            Some(i)
        }
    }
}

/// The names of what is wanted.
pub open spec fn names_of(wants: Seq<Want>) -> Seq<String> {
    wants.map_values(|w: Want| w.need.name)
}

/// Where to go, what is there, and the forecast it is chosen on.
pub struct Pick {
    pub name: String,
    pub at: Spot,
    pub look: Forecast,
}

/// The counter of index `i`, as a pick.
pub open spec fn picked_stand(f: Field, wants: Seq<Want>, i: int) -> (String, Spot, Look) {
    let s = f.stands@[i];
    (s.shop.name, s.at, look_at(s, wants, f.purse, f.salables@))
}

/// The counter worth walking to: the one the player named, where the trip to it
/// serves the errand; else the best of the first ring that has one; else, for a
/// trip that is not to sell, the nearest counter there is.
pub open spec fn picked(f: Field, stop: Stop, wants: Seq<Want>) -> Option<(String, Spot, Look)> {
    let named = named_stand(f, stop, 0);
    let ring = ring_stand(f, stop, wants, 0);
    let mark = nearest_mark(f, stop, f.marks@.len());
    if named is Some && stop.errand.spec_served_by(
        look_at(f.stands@[named->0], wants, f.purse, f.salables@),
    ) {
        Some(picked_stand(f, wants, named->0))
    } else if ring is Some {
        Some(picked_stand(f, wants, ring->0))
    } else if stop.errand == Errand::Buy && mark is Some {
        let m = f.marks@[mark->0];
        Some(
            (
                m.name,
                m.at,
                Look {
                    shop: m.name,
                    stocks: seq![],
                    missing: names_of(wants),
                    bill: 0,
                    cheapest: 0,
                    purse: f.purse,
                    takings: 0,
                    selling: 0,
                },
            ),
        )
    } else {
        None
    }
}

pub open spec fn seen_pick(r: Option<Pick>) -> Option<(String, Spot, Look)> {
    match r {
        Some(p) => Some((p.name, p.at, p.look@)),
        None => None,
    }
}

fn find_named(f: &Field, stop: &Stop) -> (r: Option<usize>)
    ensures
        match r {
            Some(i) => named_stand(*f, *stop, 0) == Some(i as int) && i < f.stands@.len(),
            None => named_stand(*f, *stop, 0) is None,
        },
{
    match &f.named {
        Some(want) => {
            let mut i: usize = 0;
            while i < f.stands.len()
                invariant
                    i <= f.stands@.len(),
                    f.named == Some(*want),
                    named_stand(*f, *stop, 0) == named_stand(*f, *stop, i as int),
                decreases f.stands@.len() - i,
            {
                let s = &f.stands[i];
                if s.open && is_allowed(s.at, s.held, f.ways, stop) && same_fold(
                    s.shop.name.as_str(),
                    want.as_str(),
                ) {
                    return Some(i);
                }
                i = i + 1;
            }
            None
        },
        None => None,
    }
}

fn find_mark(f: &Field, stop: &Stop) -> (r: Option<usize>)
    ensures
        match r {
            Some(i) => nearest_mark(*f, *stop, f.marks@.len()) == Some(i as int) && i
                < f.marks@.len(),
            None => nearest_mark(*f, *stop, f.marks@.len()) is None,
        },
{
    let mut best: Option<usize> = None;
    let mut i: usize = 0;
    while i < f.marks.len()
        invariant
            i <= f.marks@.len(),
            match best {
                Some(k) => nearest_mark(*f, *stop, i as nat) == Some(k as int) && k < i,
                None => nearest_mark(*f, *stop, i as nat) is None,
            },
        decreases f.marks@.len() - i,
    {
        let m = &f.marks[i];
        if is_allowed(m.at, m.held, f.ways, stop) {
            match best {
                Some(k) => {
                    if reach(m.at, f.ways).stands_before(reach(f.marks[k].at, f.ways)) {
                        best = Some(i);
                    }
                },
                None => {
                    best = Some(i);
                },
            }
        }
        i = i + 1;
    }
    best
}

/// The counter worth walking to, judged by its distance to the nearest way out:
/// not one being avoided, not one already called at, within reach of a way out,
/// and one the trip is known in advance to achieve something at.
///
/// The counter the player has named is taken only when the trip to it serves
/// the errand. A trip to sell goes to a counter that pays for what is carried
/// and to nothing else; a trip to buy, with nowhere that sells what is wanted,
/// goes to the nearest counter, and the forecast says as much.
pub fn pick_vendor(f: &Field, stop: &Stop, wants: &[Want]) -> (r: Option<Pick>)
    requires
        all_priced(f.stands@, f.salables@),
    ensures
        seen_pick(r) == picked(*f, *stop, wants@),
{
    if let Some(i) = find_named(f, stop) {
        let s = &f.stands[i];
        let look = forecast(&s.shop, wants, f.purse, f.salables, s.paid.as_slice());
        if stop.errand.served_by(&look) {
            return Some(Pick { name: s.shop.name.clone(), at: s.at, look });
        }
    }
    let all = vendor_rings(stop.within);
    let mut k: usize = 0;
    while k < all.len()
        invariant
            k <= all.len(),
            all@ == rings(cap_of(stop.within)),
            all_priced(f.stands@, f.salables@),
            ring_stand(*f, *stop, wants@, 0) == ring_stand(*f, *stop, wants@, k as int),
            !(named_stand(*f, *stop, 0) is Some && stop.errand.spec_served_by(
                look_at(
                    f.stands@[named_stand(*f, *stop, 0)->0],
                    wants@,
                    f.purse,
                    f.salables@,
                ),
            )),
        decreases all.len() - k,
    {
        let near = within_ring(f.stands, f.ways, stop, all[k]);
        if let Some((i, look)) = choose_counter(
            f.stands,
            near.as_slice(),
            stop.errand,
            wants,
            f.purse,
            f.salables,
        ) {
            let s = &f.stands[i];
            return Some(Pick { name: s.shop.name.clone(), at: s.at, look });
        }
        k = k + 1;
    }
    if stop.errand == Errand::Sell {
        return None;
    }
    match find_mark(f, stop) {
        Some(i) => {
            let m = &f.marks[i];
            let mut missing: Vec<String> = Vec::new();
            let mut j: usize = 0;
            while j < wants.len()
                invariant
                    j <= wants.len(),
                    missing@ == names_of(wants@.take(j as int)),
                decreases wants.len() - j,
            {
                missing.push(wants[j].need.name.clone());
                assert(missing@ =~= names_of(wants@.take(j + 1)));
                j = j + 1;
            }
            assert(wants@.take(j as int) =~= wants@);
            let look = Forecast {
                shop: m.name.clone(),
                stocks: Vec::new(),
                missing,
                bill: 0,
                cheapest: 0,
                purse: f.purse,
                takings: 0,
                selling: 0,
            };
            let pick = Pick { name: m.name.clone(), at: m.at, look };
            assert(pick.look@.stocks =~= Seq::<String>::empty());
            Some(pick)
        },
        None => None,
    }
}

/// The best counter is in the running and serves the errand, and no other that
/// does so is worth walking to before it.
pub proof fn law_no_counter_is_better(
    counters: Seq<Stand>,
    near: Seq<Option<Single>>,
    errand: Errand,
    wants: Seq<Want>,
    purse: u32,
    salables: Seq<Salable>,
    n: nat,
)
    requires
        n <= counters.len() == near.len(),
    ensures
        match best_counter(counters, near, errand, wants, purse, salables, n) {
            Some(i) => {
                &&& 0 <= i < n
                &&& near[i] is Some
                &&& errand.spec_served_by(look_at(counters[i], wants, purse, salables))
                &&& forall|k: int|
                    0 <= k < n && (#[trigger] near[k]) is Some && errand.spec_served_by(
                        look_at(counters[k], wants, purse, salables),
                    ) ==> !is_first(
                        errand,
                        look_at(counters[k], wants, purse, salables),
                        near[k]->0,
                        look_at(counters[i], wants, purse, salables),
                        near[i]->0,
                    )
            },
            None => forall|k: int|
                0 <= k < n && (#[trigger] near[k]) is Some ==> !errand.spec_served_by(
                    look_at(counters[k], wants, purse, salables),
                ),
        },
    decreases n,
{
    if n > 0 {
        law_no_counter_is_better(
            counters,
            near,
            errand,
            wants,
            purse,
            salables,
            (n - 1) as nat,
        );
    }
}

proof fn lemma_named(f: Field, stop: Stop, i: int)
    requires
        0 <= i,
    ensures
        named_stand(f, stop, i) is Some ==> {
            let k = named_stand(f, stop, i)->0;
            let s = f.stands@[k];
            0 <= k < f.stands@.len() && may_walk_to(s.at, s.held, f.ways@, stop) && s.open
        },
    decreases f.stands@.len() - i,
{
    if i < f.stands@.len() {
        lemma_named(f, stop, i + 1);
    }
}

proof fn lemma_ring(f: Field, stop: Stop, wants: Seq<Want>, k: int)
    requires
        0 <= k,
    ensures
        ring_stand(f, stop, wants, k) is Some ==> {
            let i = ring_stand(f, stop, wants, k)->0;
            let s = f.stands@[i];
            &&& 0 <= i < f.stands@.len()
            &&& may_walk_to(s.at, s.held, f.ways@, stop)
            &&& s.open
            &&& stop.errand.spec_served_by(look_at(s, wants, f.purse, f.salables@))
        },
    decreases rings(cap_of(stop.within)).len() - k,
{
    let all = rings(cap_of(stop.within));
    if k < all.len() {
        lemma_ring(f, stop, wants, k + 1);
        let near = in_ring(f.stands@, f.ways@, stop, all[k]);
        law_no_counter_is_better(
            f.stands@,
            near,
            stop.errand,
            wants,
            f.purse,
            f.salables@,
            f.stands@.len(),
        );
    }
}

proof fn lemma_mark(f: Field, stop: Stop, n: nat)
    requires
        n <= f.marks@.len(),
    ensures
        nearest_mark(f, stop, n) is Some ==> {
            let i = nearest_mark(f, stop, n)->0;
            let m = f.marks@[i];
            0 <= i < f.marks@.len() && may_walk_to(m.at, m.held, f.ways@, stop)
        },
    decreases n,
{
    if n > 0 {
        lemma_mark(f, stop, (n - 1) as nat);
    }
}

/// A counter or a landmark of this name stands at `at`, and is not left alone.
pub open spec fn free_to_call_at(f: Field, name: String, at: Spot) -> bool {
    ||| exists|i: int|
        0 <= i < f.stands@.len() && (#[trigger] f.stands@[i]).shop.name == name && f.stands@[i].at
            == at && !f.stands@[i].held
    ||| exists|i: int|
        0 <= i < f.marks@.len() && (#[trigger] f.marks@[i]).name == name && f.marks@[i].at == at
            && !f.marks@[i].held
}

/// A run never goes to a counter it is leaving alone, has called at already or
/// that stands too far from a way out; and one made to sell never goes to a
/// counter that buys nothing of what is carried.
pub proof fn law_a_pick_serves_the_run(f: Field, stop: Stop, wants: Seq<Want>)
    requires
        picked(f, stop, wants) is Some,
    ensures
        ({
            let (name, at, look) = picked(f, stop, wants)->0;
            &&& free_to_call_at(f, name, at)
            &&& stop.within is Some ==> reach_of(at, f.ways@, f.ways@.len()).at_most(
                stop.within->0,
            )
            &&& !called_at(stop.visited@, at)
            &&& stop.errand == Errand::Sell ==> look.selling > 0
        }),
{
    lemma_named(f, stop, 0);
    lemma_ring(f, stop, wants, 0);
    lemma_mark(f, stop, f.marks@.len());
}

} // verus!
