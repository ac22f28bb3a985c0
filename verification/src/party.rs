//! What a character says of itself to its party, and what the party does by it.

use crate::clock::{seconds, since, spec_seconds, spec_since, Moment, Span};
use crate::config::{restocks_as_a_party, Growth, Team};
use crate::logistics::{
    decide, decided, line_level, quartermaster, runner, spec_line_level, GroupMode, Plan, Restock,
    Stage, Supplies, WHOLE,
};
use crate::orders::{deeds, note, Deed, Order};
use crate::party_laws::{is_worst, law_the_worst_line_is_the_worst};
use crate::single::Single;
use crate::state::State;
use crate::text::{alike, cat4, same, same_fold};
use crate::things::Thing;
use crate::wares::{sale_reason, worth_a_sale_run, Need, NeedKind, Salable};
use vstd::prelude::*;
use vstd::string::*;

verus! {

/// The worst supply line among the first `n` needs, of those that can be
/// bought, as a fraction.
pub open spec fn worst_level(needs: Seq<Need>, n: nat) -> Single
    decreases n,
{
    if n == 0 {
        Single { bits: WHOLE }
    } else {
        let so_far = worst_level(needs, (n - 1) as nat);
        let need = needs[n - 1];
        if need.buyable {
            so_far.smaller(spec_line_level(need.have, need.keep))
        } else {
            so_far
        }
    }
}

fn find_worst(needs: &[Need]) -> (r: Single)
    ensures
        r == worst_level(needs@, needs@.len()),
        is_worst(needs@, r),
{
    proof {
        law_the_worst_line_is_the_worst(needs@);
    }
    let mut worst = Single { bits: WHOLE };
    let mut i: usize = 0;
    while i < needs.len()
        invariant
            i <= needs.len(),
            worst == worst_level(needs@, i as nat),
        decreases needs.len() - i,
    {
        if needs[i].buyable {
            worst = worst.min(line_level(needs[i].have, needs[i].keep));
        }
        i = i + 1;
    }
    worst
}

/// What one of a named thing is worth, going by the first such thing carried
/// from `i` on that is worth anything.
pub open spec fn worth_from(things: Seq<Thing>, name: Seq<char>, i: int) -> u32
    decreases things.len() - i,
{
    if i >= things.len() {
        0
    } else if alike(things[i].name@, name) && things[i].value > 0 {
        things[i].value
    } else {
        worth_from(things, name, i + 1)
    }
}

/// Roughly what filling a need will cost.
pub open spec fn spec_rough_cost(things: Seq<Thing>, need: Need) -> u32 {
    let n = worth_from(things, need.name@, 0) * need.want;
    if n > u32::MAX {
        u32::MAX
    } else {
        n as u32
    }
}

/// Roughly what filling a need will cost, for working out who has to be handed
/// money before the party can shop. A vendor sells above an item's own value,
/// so this is an underestimate rather than a promise.
pub fn rough_cost(things: &[Thing], need: &Need) -> (r: u32)
    ensures
        r == spec_rough_cost(things@, *need),
{
    let mut unit: u32 = 0;
    let mut i: usize = 0;
    let mut found = false;
    while i < things.len() && !found
        invariant
            i <= things.len(),
            found ==> unit == worth_from(things@, need.name@, 0),
            !found ==> unit == 0 && worth_from(things@, need.name@, 0) == worth_from(
                things@,
                need.name@,
                i as int,
            ),
        decreases things.len() - i,
    {
        if things[i].value > 0 && same_fold(things[i].name.as_str(), need.name.as_str()) {
            unit = things[i].value;
            found = true;
        }
        i = i + 1;
    }
    let n: u32 = need.want;
    assert(unit * n <= 0xffff_ffff * 0xffff_ffff) by (nonlinear_arith)
        requires
            0 <= unit <= 0xffff_ffff,
            0 <= n <= 0xffff_ffff,
    ;
    let cost: u64 = unit as u64 * n as u64;
    if cost > u32::MAX as u64 {
        u32::MAX
    } else {
        cost as u32
    }
}

/// What filling the first `n` needs will cost.
pub open spec fn bill_of(things: Seq<Thing>, needs: Seq<Need>, n: nat) -> int
    decreases n,
{
    if n == 0 {
        0
    } else {
        bill_of(things, needs, (n - 1) as nat) + spec_rough_cost(things, needs[n - 1])
    }
}

proof fn lemma_bill_grows(things: Seq<Thing>, needs: Seq<Need>, i: nat, n: nat)
    requires
        i <= n,
    ensures
        0 <= bill_of(things, needs, i) <= bill_of(things, needs, n),
    decreases n,
{
    if i < n {
        lemma_bill_grows(things, needs, i, (n - 1) as nat);
    } else if n > 0 {
        lemma_bill_grows(things, needs, (n - 1) as nat, (n - 1) as nat);
    }
}

/// What the first `n` needs order.
pub open spec fn order_of(needs: Seq<Need>, n: nat) -> Seq<(String, u32)>
    decreases n,
{
    if n == 0 {
        seq![]
    } else {
        let rest = order_of(needs, (n - 1) as nat);
        if needs[n - 1].want > 0 && needs[n - 1].buyable {
            rest.push((needs[n - 1].name, needs[n - 1].want))
        } else {
            rest
        }
    }
}

/// Another character of the team: what it is called, and what it last said of
/// itself.
#[derive(Clone, Debug)]
pub struct Mate {
    pub name: String,
    pub supplies: Supplies,
}

/// Somebody else orders a thing of some name.
pub open spec fn ordered(mates: Seq<Mate>, me: Seq<char>, name: Seq<char>) -> bool {
    exists|i: int, k: int|
        0 <= i < mates.len() && 0 <= k < mates[i].supplies.order@.len() && mates[i].name@ != me && (
        #[trigger] mates[i].supplies.order@[k]).1 > 0 && alike(
            name,
            mates[i].supplies.order@[k].0@,
        )
}

/// Something carried is a thing somebody else ordered.
pub open spec fn spec_holding_orders(mates: Seq<Mate>, me: Seq<char>, things: Seq<Thing>) -> bool {
    exists|j: int| 0 <= j < things.len() && ordered(mates, me, (#[trigger] things[j]).name@)
}

fn is_ordered(mates: &[Mate], me: &str, name: &str) -> (r: bool)
    ensures
        r == ordered(mates@, me@, name@),
{
    let mut i: usize = 0;
    while i < mates.len()
        invariant
            i <= mates.len(),
            forall|a: int, k: int|
                0 <= a < i && 0 <= k < mates@[a].supplies.order@.len() && mates@[a].name@ != me@
                    ==> !((#[trigger] mates@[a].supplies.order@[k]).1 > 0 && alike(
                    name@,
                    mates@[a].supplies.order@[k].0@,
                )),
        decreases mates.len() - i,
    {
        let m = &mates[i];
        if !same(m.name.as_str(), me) {
            let order = &m.supplies.order;
            let mut k: usize = 0;
            while k < order.len()
                invariant
                    k <= order.len(),
                    i < mates.len(),
                    *m == mates@[i as int],
                    *order == m.supplies.order,
                    m.name@ != me@,
                    forall|b: int|
                        0 <= b < k ==> !((#[trigger] order@[b]).1 > 0 && alike(
                            name@,
                            order@[b].0@,
                        )),
                decreases order.len() - k,
            {
                if order[k].1 > 0 && same_fold(name, order[k].0.as_str()) {
                    assert(mates@[i as int].supplies.order@[k as int].1 > 0);
                    return true;
                }
                k = k + 1;
            }
        }
        i = i + 1;
    }
    false
}

/// Whether this character is carrying something another character asked for. On
/// a quartermaster run that is how the party knows the runner still has goods
/// to hand out. Worked out from the others' orders alone, never from who the
/// runner is: the runner is chosen from these reports.
pub fn holding_orders(mates: &[Mate], me: &str, things: &[Thing]) -> (r: bool)
    ensures
        r == spec_holding_orders(mates@, me@, things@),
{
    let mut j: usize = 0;
    while j < things.len()
        invariant
            j <= things.len(),
            forall|k: int| 0 <= k < j ==> !ordered(mates@, me@, (#[trigger] things@[k]).name@),
        decreases things.len() - j,
    {
        if is_ordered(mates, me, things[j].name.as_str()) {
            return true;
        }
        j = j + 1;
    }
    false
}

/// What a character's report of itself is made from.
pub struct Report<'a> {
    pub name: String,
    pub needs: &'a [Need],
    pub things: &'a [Thing],
    pub salables: &'a [Salable],
    /// How long any of it has been in the pack.
    pub carried_for: Option<Span>,
    pub policy: Restock,
    pub pack_full: bool,
    pub laden: bool,
    /// A run to town is under way.
    pub on_a_run: bool,
    pub handed_over: bool,
    pub holding_orders: bool,
    pub spendable: u32,
    /// The last run came back with nothing.
    pub futile: bool,
    pub room_anywhere: u32,
}

/// What a character says of itself.
pub open spec fn is_report(r: Report, cfg: Growth, s: Supplies) -> bool {
    let level = worst_level(r.needs@, r.needs@.len());
    &&& s.order@ == order_of(r.needs@, r.needs@.len())
    &&& s == (Supplies {
        name: r.name,
        level,
        pack_full: r.pack_full,
        laden: r.laden,
        stocked: r.policy.sound().full_at.at_most(level) && !r.on_a_run,
        bill: bill_of(r.things@, r.needs@, r.needs@.len()) as u32,
        purse: r.spendable,
        broke: r.needs@.len() > 0 && (r.spendable == 0 || r.futile),
        free_space: r.room_anywhere,
        handed_over: r.handed_over,
        holding_orders: r.holding_orders,
        order: s.order,
        sale: sale_reason(r.salables@, r.carried_for, cfg) is Some,
    })
}

/// What this character says about itself for the party to decide with: how
/// close to empty it is, what it still has to buy, and what that will cost.
///
/// The level is the worst supply line that can be bought, not the average. It
/// is broke when it is short of something and has nothing left to pay with, or
/// its last trip came back with nothing.
pub fn supplies(r: Report, cfg: &Growth) -> (s: Supplies)
    requires
        !r.policy.go_at.nan(),
        r.salables@.len() <= u32::MAX,
        bill_of(r.things@, r.needs@, r.needs@.len()) <= u32::MAX,
    ensures
        is_report(r, *cfg, s),
        is_worst(r.needs@, s.level),
{
    let level = find_worst(r.needs);
    let policy = r.policy.sane();
    let mut bill: u32 = 0;
    let mut order: Vec<(String, u32)> = Vec::new();
    let mut i: usize = 0;
    while i < r.needs.len()
        invariant
            i <= r.needs@.len(),
            bill_of(r.things@, r.needs@, r.needs@.len()) <= u32::MAX,
            bill == bill_of(r.things@, r.needs@, i as nat),
            order@ == order_of(r.needs@, i as nat),
        decreases r.needs@.len() - i,
    {
        proof {
            lemma_bill_grows(r.things@, r.needs@, (i + 1) as nat, r.needs@.len());
        }
        let n = &r.needs[i];
        bill = bill + rough_cost(r.things, n);
        if n.want > 0 && n.buyable {
            order.push((n.name.clone(), n.want));
        }
        i = i + 1;
    }
    let sale = worth_a_sale_run(r.salables, r.carried_for, cfg).is_some();
    Supplies {
        name: r.name,
        level,
        pack_full: r.pack_full,
        laden: r.laden,
        stocked: policy.full_at.le(level) && !r.on_a_run,
        bill,
        purse: r.spendable,
        broke: r.needs.len() > 0 && (r.spendable == 0 || r.futile),
        free_space: r.room_anywhere,
        handed_over: r.handed_over,
        holding_orders: r.holding_orders,
        order,
        sale,
    }
}

/// What some characters last said of themselves.
pub open spec fn reports(mates: Seq<Mate>) -> Seq<Supplies> {
    mates.map_values(|m: Mate| m.supplies)
}

/// The party as everyone has last described itself, this character included.
/// What every shared decision is worked out from.
pub fn party_supplies(mates: Vec<Mate>, mine: Supplies) -> (r: Vec<Supplies>)
    ensures
        r@ == reports(mates@).push(mine),
{
    let mut rest = mates;
    let ghost all = rest@;
    // Taken from behind, so the row is turned round at the end.
    let mut back: Vec<Supplies> = Vec::new();
    back.push(mine);
    assert(reports(all.skip(all.len() as int)).push(mine) =~= back@.reverse());
    while rest.len() > 0
        invariant
            rest.len() <= all.len(),
            rest@ == all.take(rest.len() as int),
            back@.reverse() == reports(all.skip(rest.len() as int)).push(mine),
        decreases rest.len(),
    {
        let ghost n = rest.len() as int;
        let ghost before = back@.reverse();
        let m = rest.pop().unwrap();
        assert(rest@ =~= all.take(n - 1));
        back.push(m.supplies);
        assert(back@.reverse() =~= seq![m.supplies] + before);
        assert(reports(all.skip(n - 1)) =~= seq![m.supplies] + reports(all.skip(n)));
        assert(back@.reverse() =~= reports(all.skip(n - 1)).push(mine));
    }
    assert(all.skip(0) =~= all);
    let ghost whole = back@.reverse();
    let mut party: Vec<Supplies> = Vec::new();
    while back.len() > 0
        invariant
            party@ + back@.reverse() == whole,
        decreases back.len(),
    {
        let ghost before = party@ + back@.reverse();
        let s = back.pop().unwrap();
        party.push(s);
        assert(party@ + back@.reverse() =~= before);
    }
    assert(party@ =~= whole);
    party
}

/// Who does the party's shopping, where it sends one character.
pub open spec fn spec_quartermaster_name(plan: Plan, party: Seq<Supplies>) -> Option<String> {
    match (plan, runner(party, party.len())) {
        (Plan::Quartermaster, Some(i)) => Some(party[i].name),
        _ => None,
    }
}

/// Who is doing the party's shopping, when it sends one character rather than
/// all going.
pub fn quartermaster_name(plan: Plan, party: &[Supplies]) -> (r: Option<String>)
    ensures
        r == spec_quartermaster_name(plan, party@),
{
    if plan != Plan::Quartermaster {
        return None;
    }
    match quartermaster(party) {
        Some(m) => Some(m.name.clone()),
        None => None,
    }
}

/// Whether this character is the one doing the shopping.
pub fn is_quartermaster(me: &str, plan: Plan, party: &[Supplies]) -> (r: bool)
    ensures
        r == (me@.len() > 0 && match spec_quartermaster_name(plan, party@) {
            Some(name) => name@ == me@,
            None => false,
        }),
{
    if me.is_empty() {
        return false;
    }
    match quartermaster_name(plan, party) {
        Some(name) => same(name.as_str(), me),
        None => false,
    }
}

/// A trip has dragged on: longer than the policy gives it, where it gives it a
/// time.
pub open spec fn stalled(st: State, policy: Restock, now: Moment) -> bool {
    &&& !(st.mode is Hunting)
    &&& (Single { bits: 0 }).below(policy.give_up_after)
    &&& st.mode_since is Some
    &&& policy.give_up_after.below(spec_seconds(spec_since(now, st.mode_since->0)))
}

/// How many trips the quartermaster has made, once the mode has changed: back
/// to the start of a trip is another round; going home starts the count again.
pub open spec fn next_round(st: State, mode: GroupMode) -> u32 {
    match mode {
        GroupMode::Hunting => 0,
        GroupMode::Restocking(stage) => if stage == Stage::HandOver && !(st.mode is Hunting) {
            (st.round + 1) as u32
        } else {
            st.round
        },
    }
}

/// What the party is doing, as worked out from the roster.
pub open spec fn is_mode(
    before: State,
    after: State,
    team: Team,
    party: Seq<Supplies>,
    mates: nat,
    now: Moment,
    given: Seq<Deed>,
    orders: Seq<Deed>,
) -> bool {
    if !(team.enabled && team.restock.together && mates > 0) {
        after == (State { mode: GroupMode::Hunting, ..before }) && orders == given
    } else if stalled(before, team.restock, now) {
        &&& after.mode_because@ == "the trip to town took too long"@
        &&& after == (State {
            mode: GroupMode::Hunting,
            mode_since: Some(now),
            mode_because: after.mode_because,
            handed_over: false,
            round: 0,
            ..before
        })
        &&& orders == given.push(
            Deed::Note("giving up on the trip to town and going back to hunting"@),
        )
    } else {
        match decided(before.mode, party, team.restock, before.round) {
            None => after == before && orders == given,
            Some((mode, because)) => {
                &&& after.mode_because@ == because
                &&& after == (State {
                    mode,
                    mode_since: Some(now),
                    mode_because: after.mode_because,
                    handed_over: false,
                    round: next_round(before, mode),
                    ..before
                })
                &&& orders == given.push(
                    Deed::Note("the party is "@ + mode.words() + ": "@ + because),
                )
            },
        }
    }
}

/// Work out what the party is doing and remember it. Every session runs this on
/// the same roster and reaches the same answer. A character playing alone is
/// always hunting: its own pack and supplies send it to town. A trip that has
/// dragged on is given up.
pub fn grow_mode(
    st: &mut State,
    team: &Team,
    party: &[Supplies],
    mates: usize,
    now: Moment,
    out: &mut Vec<Order>,
) -> (r: GroupMode)
    requires
        !team.restock.go_at.nan(),
        old(st).round < u32::MAX,
    ensures
        r == final(st).mode,
        is_mode(
            *old(st),
            *final(st),
            *team,
            party@,
            mates as nat,
            now,
            deeds(old(out)@),
            deeds(final(out)@),
        ),
{
    if !restocks_as_a_party(team, mates) {
        st.mode = GroupMode::Hunting;
        return GroupMode::Hunting;
    }
    let policy = team.restock;
    let late = match st.mode_since {
        Some(t) => policy.give_up_after.lt(seconds(since(now, t))),
        None => false,
    };
    if !st.mode.hunting() && (Single { bits: 0 }).lt(policy.give_up_after) && late {
        st.mode = GroupMode::Hunting;
        st.mode_since = Some(now);
        st.mode_because = String::from_str("the trip to town took too long");
        st.handed_over = false;
        st.round = 0;
        note(
            out,
            String::from_str("giving up on the trip to town and going back to hunting"),
        );
        return GroupMode::Hunting;
    }
    if let Some(switch) = decide(st.mode, party, &policy, st.round) {
        note(
            out,
            cat4("the party is ", switch.mode.label(), ": ", switch.because.as_str()),
        );
        st.round = match switch.mode {
            GroupMode::Hunting => 0,
            GroupMode::Restocking(stage) => {
                if stage == Stage::HandOver && !st.mode.hunting() {
                    st.round + 1
                } else {
                    st.round
                }
            },
        };
        st.mode = switch.mode;
        st.mode_since = Some(now);
        st.mode_because = switch.because;
        st.handed_over = false;
    }
    st.mode
}

/// A want as the shopping rules have it: a weenie class, a name and how many
/// more to buy.
#[derive(Clone, Debug)]
pub struct ClassWant {
    pub wcid: u32,
    pub name: String,
    pub short: u32,
    pub urgent: bool,
}

/// What the first `n` needs come to for the shopping rules.
pub open spec fn shortfall_of(needs: Seq<Need>, n: nat) -> Seq<ClassWant>
    decreases n,
{
    if n == 0 {
        seq![]
    } else {
        let rest = shortfall_of(needs, (n - 1) as nat);
        let need = needs[n - 1];
        match need.kind {
            NeedKind::Component(wcid) => if need.buyable && need.want > 0 {
                rest.push(
                    ClassWant {
                        wcid,
                        name: need.name,
                        short: need.want,
                        urgent: need.urgent,
                    },
                )
            } else {
                rest
            },
            _ => rest,
        }
    }
}

/// What the character is short of, as the shopping rules want it. Only lines
/// that can actually be bought: a want nobody can fill would hold a trip open
/// for ever. Ammunition and named stock are matched on the shelf by name, and
/// are not among these.
pub fn vendor_shortfall_with(needs: &[Need]) -> (r: Vec<ClassWant>)
    ensures
        r@ == shortfall_of(needs@, needs@.len()),
{
    let mut r: Vec<ClassWant> = Vec::new();
    let mut i: usize = 0;
    while i < needs.len()
        invariant
            i <= needs.len(),
            r@ == shortfall_of(needs@, i as nat),
        decreases needs.len() - i,
    {
        let n = &needs[i];
        if n.buyable && n.want > 0 {
            if let NeedKind::Component(wcid) = &n.kind {
                r.push(
                    ClassWant {
                        wcid: *wcid,
                        name: n.name.clone(),
                        short: n.want,
                        urgent: n.urgent,
                    },
                );
            }
        }
        i = i + 1;
    }
    r
}

} // verus!
