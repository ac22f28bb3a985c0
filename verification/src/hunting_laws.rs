//! What holds of looking for something to hunt.

use crate::clock::{spec_seconds, spec_since, Moment, Span};
use crate::config::{spec_quiet_before_move, Growth, Tactic};
use crate::hunt::{spec_patrol_point, Shape};
use crate::hunting::{
    at_ground, avoided, body_seen, ground_choice, hunt_bound, legs, looked, restless, roam_goal,
    skips_left, still_lying, too_long, with_fresh, Body, HuntLook, HuntNext, Legs, Where,
};
use crate::orders::Deed;
use crate::place::Spot;
use crate::single::Single;
use crate::state::{Ground, Skipped, State};
use vstd::prelude::*;
use vstd::string::*;

verus! {

/// A place lies in the landblock of a cell: 192 metres to a block, the column in
/// the first byte and the row in the second.
pub open spec fn in_block_of(p: Spot, cell: u32) -> bool {
    let side = Single { bits: 0x4340_0000 };
    cell & 0xffff_0000 == ((p.x.quotient(side).cut() << 24u32) | (p.y.quotient(side).cut()
        << 16u32))
}

/// A character in a house steps outside first: to where it last stood outdoors,
/// where that is in the same block and within 150 metres. In a dungeon, or out in
/// the open, it sets out straight.
pub proof fn law_when_a_character_steps_outside_first(st: State, w: Where)
    ensures
        ({
            let out = st.last_outdoors->0;
            let first = w.indoors && !st.in_dungeon && st.last_outdoors is Some && in_block_of(
                out,
                w.cell,
            ) && out.spec_away(w.me).below(Single { bits: 0x4316_0000 });
            &&& first ==> legs(st, Some(w)) == Legs::OutFirst(out)
            &&& !first ==> legs(st, Some(w)) == Legs::Straight
            &&& legs(st, None) == Legs::Nowhere
        }),
{
}

/// A character is at its ground when it is in its landblock or within 30 metres of
/// it, and a walk there takes too long after four minutes.
pub proof fn law_when_a_ground_is_come_to(
    g: Ground,
    look: HuntLook,
    me: Spot,
    st: State,
    now: Moment,
)
    ensures
        look.cell / 0x1_0000 == g.landblock ==> at_ground(g, look, me),
        g.at.spec_away(me).at_most(Single { bits: 0x41f0_0000 }) ==> at_ground(g, look, me),
        look.cell / 0x1_0000 != g.landblock && !g.at.spec_away(me).at_most(
            Single { bits: 0x41f0_0000 },
        ) ==> !at_ground(g, look, me),
        too_long(st, now) <==> st.bound_since is Some && now > st.bound_since->0
            + 240_000_000_000,
{
}

proof fn lemma_fresh(seen: Seq<Body>, sight: Seq<u32>, now: Moment, n: nat, b: Body)
    requires
        n <= sight.len(),
    ensures
        with_fresh(seen, sight, now, n).contains(b) <==> seen.contains(b) || (b.seen == now
            && sight.take(n as int).contains(b.guid) && !body_seen(seen, b.guid)),
    decreases n,
{
    let all = with_fresh(seen, sight, now, n);
    if n > 0 {
        lemma_fresh(seen, sight, now, (n - 1) as nat, b);
        let rest = with_fresh(seen, sight, now, (n - 1) as nat);
        let guid = sight[n - 1];
        let some = sight.take(n as int);
        let less = sight.take(n - 1);
        assert(some.contains(b.guid) <==> less.contains(b.guid) || b.guid == guid) by {
            if less.contains(b.guid) {
                let i = choose|i: int| 0 <= i < less.len() && less[i] == b.guid;
                assert(some[i] == b.guid);
            }
            if b.guid == guid {
                assert(some[n - 1] == b.guid);
            }
            if some.contains(b.guid) && b.guid != guid {
                let i = choose|i: int| 0 <= i < some.len() && some[i] == b.guid;
                assert(less[i] == b.guid);
            }
        }
        if !body_seen(seen, guid) {
            assert(all == rest.push(Body { guid, seen: now }));
            if rest.contains(b) {
                let i = choose|i: int| 0 <= i < rest.len() && rest[i] == b;
                assert(all[i] == b);
            }
            if b == (Body { guid, seen: now }) {
                assert(all[all.len() - 1] == b);
            }
            if all.contains(b) && b != (Body { guid, seen: now }) {
                let i = choose|i: int| 0 <= i < all.len() && all[i] == b;
                assert(rest[i] == b);
            }
        }
    }
}

proof fn lemma_lying(bodies: Seq<Body>, looted: Seq<u32>, life: Span, now: Moment, n: nat)
    requires
        n <= bodies.len(),
    ensures
        still_lying(bodies, looted, life, now, n) == bodies.take(n as int).filter(
            |b: Body| now < b.seen + 2 * life && !looted.contains(b.guid) && life > 0,
        ),
    decreases n,
{
    reveal(Seq::filter);
    let p = |b: Body| now < b.seen + 2 * life && !looted.contains(b.guid) && life > 0;
    let all = bodies.take(n as int);
    if n > 0 {
        lemma_lying(bodies, looted, life, now, (n - 1) as nat);
        assert(all.drop_last() =~= bodies.take(n - 1));
        assert(all.last() == bodies[n - 1]);
    }
    assert(still_lying(bodies, looted, life, now, n) =~= all.filter(p));
}

/// A body is remembered from when it is first seen, for twice as long as bodies
/// lie, and not once it is looted.
pub proof fn law_which_bodies_are_remembered(
    seen: Seq<Body>,
    sight: Seq<u32>,
    looted: Seq<u32>,
    life: Span,
    now: Moment,
    b: Body,
)
    ensures
        ({
            let all = with_fresh(seen, sight, now, sight.len());
            still_lying(all, looted, life, now, all.len()).contains(b) <==> {
                &&& now < b.seen + 2 * life && life > 0
                &&& !looted.contains(b.guid)
                &&& seen.contains(b) || (b.seen == now && sight.contains(b.guid) && forall|i: int|
                    0 <= i < seen.len() ==> (#[trigger] seen[i]).guid != b.guid)
            }
        }),
{
    let all = with_fresh(seen, sight, now, sight.len());
    lemma_fresh(seen, sight, now, sight.len(), b);
    lemma_lying(all, looted, life, now, all.len());
    assert(sight.take(sight.len() as int) =~= sight);
    assert(all.take(all.len() as int) =~= all);
    let p = |b: Body| now < b.seen + 2 * life && !looted.contains(b.guid) && life > 0;
    let kept = all.filter(p);
    all.filter_lemma(p);
    if kept.contains(b) {
        let i = choose|i: int| 0 <= i < kept.len() && kept[i] == b;
        assert(p(kept[i]));
        lemma_kept_from(all, p, i);
    }
    if all.contains(b) && p(b) {
        let i = choose|i: int| 0 <= i < all.len() && all[i] == b;
        assert(kept.contains(all[i]));
    }
}

proof fn lemma_kept_from(all: Seq<Body>, p: spec_fn(Body) -> bool, i: int)
    requires
        0 <= i < all.filter(p).len(),
    ensures
        all.contains(all.filter(p)[i]),
    decreases all.len(),
{
    reveal(Seq::filter);
    if all.len() > 0 {
        let rest = all.drop_last();
        if i < rest.filter(p).len() {
            lemma_kept_from(rest, p, i);
            let x = rest.filter(p)[i];
            let k = choose|k: int| 0 <= k < rest.len() && rest[k] == x;
            assert(all[k] == x);
        } else {
            assert(all[all.len() - 1] == all.last());
        }
    }
}

proof fn lemma_skips(skip: Seq<Skipped>, now: Moment, n: nat)
    requires
        n <= skip.len(),
    ensures
        skips_left(skip, now, n) == skip.take(n as int).filter(
            |s: Skipped| now < s.since + 1_200_000_000_000,
        ),
    decreases n,
{
    reveal(Seq::filter);
    let p = |s: Skipped| now < s.since + 1_200_000_000_000;
    let all = skip.take(n as int);
    if n > 0 {
        lemma_skips(skip, now, (n - 1) as nat);
        assert(all.drop_last() =~= skip.take(n - 1));
        assert(all.last() == skip[n - 1]);
    }
    assert(skips_left(skip, now, n) =~= all.filter(p));
}

/// A ground is passed over for twenty minutes, and then thought of again.
pub proof fn law_how_long_a_ground_is_passed_over(skip: Seq<Skipped>, now: Moment)
    ensures
        skips_left(skip, now, skip.len()) == skip.filter(
            |s: Skipped| now < s.since + 1_200_000_000_000,
        ),
{
    lemma_skips(skip, now, skip.len());
    assert(skip.take(skip.len() as int) =~= skip);
}

/// Where the party or the player says to hunt comes before what is found: the
/// ground that is pinned, where one is set, and then the leader's. It is gone to
/// unless the character hunts there; a pinned one is then kept to. A follower finds
/// none of its own. Anybody else does, anywhere but where it was passed over, where
/// it is and where it hunts.
pub proof fn law_which_ground_is_chosen(
    st: State,
    left: Seq<Skipped>,
    look: HuntLook,
    cfg: Growth,
    r: HuntNext,
)
    requires
        ground_choice(st, left, look, cfg, r),
    ensures
        ({
            let pinned = cfg.hunt_at != 0 && look.pinned is Some;
            let told = pinned || look.party is Some;
            let g = if pinned {
                *look.pinned->0
            } else {
                *look.party->0
            };
            let here = told && st.hunting_at == Some(g.landblock);
            &&& told && !here ==> r == (HuntNext::GoTo { ground: g, named: pinned })
            &&& pinned && here ==> r == HuntNext::Done(false)
            &&& !pinned && (!told || here) && look.follows ==> r == HuntNext::Done(false)
            &&& !pinned && (!told || here) && !look.follows ==> r is Find
            &&& r is Find ==> forall|b: u32|
                #![trigger r->Find_0@.contains(b)]
                r->Find_0@.contains(b) <==> b == look.cell / 0x1_0000 || st.hunting_at == Some(b)
                    || exists|i: int| 0 <= i < left.len() && (#[trigger] left[i]).landblock == b
        }),
{
    if r is Find {
        let here = (look.cell / 0x1_0000) as u32;
        let a = avoided(left, here, st.hunting_at);
        assert(r->Find_0@ == a);
        assert forall|b: u32|
            #![trigger r->Find_0@.contains(b)]
            r->Find_0@.contains(b) <==> b == look.cell / 0x1_0000 || st.hunting_at == Some(b)
                || exists|i: int| 0 <= i < left.len() && (#[trigger] left[i]).landblock == b by {
            crate::hunting::law_a_skipped_ground_is_avoided(left, here, st.hunting_at);
            if a.contains(b) {
                let i = choose|i: int| 0 <= i < a.len() && a[i] == b;
                if i < left.len() {
                    assert(left[i].landblock == b);
                }
            }
        }
    }
}

/// Where a character roams to is 70 metres off the way it heads, but no nearer than
/// 10 metres to the edge of its block: between 10 and 182 metres into it.
pub proof fn law_where_a_character_roams(me: Spot, heading: Spot, origin: Spot)
    requires
        !origin.x.sum(Single { bits: 0x4120_0000 }).nan(),
        !origin.y.sum(Single { bits: 0x4120_0000 }).nan(),
        origin.x.sum(Single { bits: 0x4120_0000 }).at_most(
            origin.x.sum(Single { bits: 0x4336_0000 }),
        ),
        origin.y.sum(Single { bits: 0x4120_0000 }).at_most(
            origin.y.sum(Single { bits: 0x4336_0000 }),
        ),
    ensures
        ({
            let goal = roam_goal(me, heading, origin);
            let x = me.x.sum(heading.x.product(Single { bits: 0x428c_0000 }));
            let y = me.y.sum(heading.y.product(Single { bits: 0x428c_0000 }));
            let left = origin.x.sum(Single { bits: 0x4120_0000 });
            let right = origin.x.sum(Single { bits: 0x4336_0000 });
            let low = origin.y.sum(Single { bits: 0x4120_0000 });
            let high = origin.y.sum(Single { bits: 0x4336_0000 });
            &&& left.at_most(goal.x) && goal.x.at_most(right)
            &&& low.at_most(goal.y) && goal.y.at_most(high)
            &&& left.at_most(x) && x.at_most(right) ==> goal.x == x
            &&& low.at_most(y) && y.at_most(high) ==> goal.y == y
            &&& x.below(left) ==> goal.x == left
            &&& right.below(x) ==> goal.x == right
            &&& y.below(low) ==> goal.y == low
            &&& high.below(y) ==> goal.y == high
        }),
{
}

/// A character grows restless where it is known how strong it is, nothing has been
/// in sight for as long as is set, it is not on its way, it is not waiting to try a
/// ground again, and nobody it leads lags behind.
pub proof fn law_when_a_character_grows_restless(
    st: State,
    look: HuntLook,
    cfg: Growth,
    now: Moment,
)
    ensures
        restless(st, look, cfg, now) ==> look.level > 0 && st.quiet_since is Some
            && !look.traveling,
        restless(st, look, cfg, now) ==> st.next_hunt is None || now >= st.next_hunt->0,
        restless(st, look, cfg, now) ==> look.follows || !look.stragglers,
        look.level > 0 && st.quiet_since is Some && !look.traveling && (st.next_hunt is None || now
            >= st.next_hunt->0) && (look.follows || !look.stragglers) ==> (restless(
            st,
            look,
            cfg,
            now,
        ) <==> !spec_seconds(spec_since(now, st.quiet_since->0)).below(
            spec_quiet_before_move(cfg, look.area is Some),
        )),
{
}

/// A spot with nothing on it is given as long as is set, and ten seconds at most in
/// an area.
pub proof fn law_how_long_a_quiet_spot_is_given(cfg: Growth)
    ensures
        spec_quiet_before_move(cfg, false) == cfg.idle_before_move,
        cfg.idle_before_move.at_most(Single { bits: 0x4120_0000 }) ==> spec_quiet_before_move(
            cfg,
            true,
        ) == cfg.idle_before_move,
        (Single { bits: 0x4120_0000 }).below(cfg.idle_before_move) ==> spec_quiet_before_move(
            cfg,
            true,
        ) == (Single { bits: 0x4120_0000 }),
{
}

/// What a restless character does. In an outline it looks about it, corner after
/// corner, unless it follows; in a dungeon it is left to explore. Without an area
/// it holds the spot where that is its way; roams its ground three times, or for
/// ever on patrol, unless it follows; and then looks for another. Each time the
/// quiet begins anew and the rounds are counted. One that is not restless does
/// nothing.
pub proof fn law_what_a_restless_character_does(
    st: State,
    look: HuntLook,
    cfg: Growth,
    me: Spot,
    now: Moment,
)
    requires
        look.headings@.len() == 3,
    ensures
        ({
            let (after, asked, next) = looked(st, look, cfg, me, now);
            let at_home = st.hunting_at == Some((look.cell / 0x1_0000) as u32);
            let done = Some(HuntNext::Done(false));
            &&& !restless(st, look, cfg, now) ==> after == st && asked.len() == 0 && next == done
            &&& restless(st, look, cfg, now) ==> match look.area {
                Some(area) => match area.shape {
                    Shape::Outline { points } => {
                        &&& look.follows || points@.len() <= 2 ==> after == st && next == done
                        &&& !look.follows && points@.len() >= 3 ==> {
                            &&& next == Some(
                                HuntNext::AboutArea(spec_patrol_point(points@, st.roams)),
                            )
                            &&& after.quiet_since == Some(now)
                            &&& st.roams < u32::MAX ==> after.roams == st.roams + 1
                            &&& after == (State {
                                roams: after.roams,
                                quiet_since: Some(now),
                                ..st
                            })
                        }
                    },
                    Shape::Dungeon { .. } => after == st && next == done,
                },
                None => {
                    let camps = look.tactic == Tactic::Camp && at_home;
                    let roams = !camps && !look.follows && at_home && (if look.tactic
                        == Tactic::Patrol {
                        st.roams < u32::MAX
                    } else {
                        st.roams <= 2
                    });
                    &&& camps ==> next == done && after == (State { quiet_since: Some(now), ..st })
                    &&& roams ==> {
                        &&& next == Some(
                            HuntNext::Roam(
                                roam_goal(me, look.headings@[st.roams as int % 3], look.origin),
                            ),
                        )
                        &&& after == (State {
                            roams: (st.roams + 1) as u32,
                            quiet_since: Some(now),
                            ..st
                        })
                    }
                    &&& !camps && !roams ==> next is None && after == st
                },
            }
        }),
{
}

/// A walk to a ground that has come to a stop: there, the ground is hunted from now
/// on, quiet and rounds beginning anew; on a road broken off the character goes on,
/// unless it is busy or was sent on within five seconds; and short of it the ground
/// is passed over.
pub open spec fn stop_is_right(
    before: State,
    after: State,
    look: HuntLook,
    me: Spot,
    broken_off: bool,
    now: Moment,
    given: Seq<Deed>,
    orders: Seq<Deed>,
    r: HuntNext,
) -> bool {
    let g = before.bound->0;
    let there = look.cell / 0x1_0000 == g.landblock || g.at.spec_away(me).at_most(
        Single { bits: 0x41f0_0000 },
    );
    let lately = before.bound_walked_on is Some && now < before.bound_walked_on->0
        + 5_000_000_000;
    &&& there ==> {
        &&& r == HuntNext::Done(false)
        &&& after == (State {
            bound: None,
            hunting_at: Some(g.landblock),
            quiet_since: None,
            roams: 0,
            ..before
        })
    }
    &&& !there && !broken_off ==> {
        &&& r == HuntNext::Done(false)
        &&& after.skip@ == before.skip@.push(Skipped { landblock: g.landblock, since: now })
        &&& after == (State { bound: None, skip: after.skip, ..before })
    }
    &&& !there && broken_off && (look.busy || lately) ==> after == before && orders == given && r
        == HuntNext::Done(true)
    &&& !there && broken_off && !look.busy && !lately ==> after == before && orders == given && r
        == HuntNext::WalkOn(g.at)
}

/// What a character bound for a ground does: after four minutes it gives the walk
/// up where it stands; it lets a journey go on; out of a house it goes on to where
/// it was bound; and where it has come to a stop it sees whether it is there.
pub proof fn law_a_walk_to_a_ground(
    before: State,
    after: State,
    look: HuntLook,
    me: Spot,
    now: Moment,
    given: Seq<Deed>,
    orders: Seq<Deed>,
    r: HuntNext,
)
    requires
        before.bound is Some,
        hunt_bound(before, after, look, me, now, given, orders, r),
    ensures
        ({
            let late = before.bound_since is Some && now > before.bound_since->0
                + 240_000_000_000;
            &&& late ==> stop_is_right(
                before,
                after,
                look,
                me,
                false,
                now,
                orders.take(given.len() as int + 2),
                orders,
                r,
            ) && orders.len() > given.len() + 1 && orders[given.len() as int + 1]
                == Deed::CancelTravel
            &&& !late && look.traveling ==> after == before && orders.len() == given.len() + 1
                && orders.drop_last() == given && r == HuntNext::Done(true)
            &&& !late && !look.traveling && before.after_out is Some ==> after == (State {
                after_out: None,
                ..before
            }) && orders == given && r == HuntNext::TravelOn(before.after_out->0)
            &&& !late && !look.traveling && before.after_out is None ==> stop_is_right(
                before,
                after,
                look,
                me,
                look.broken_off,
                now,
                given,
                orders,
                r,
            )
        }),
{
    if too_long(before, now) {
        let first = given + seq![
            Deed::Note(
                "the walk to the "@ + before.bound->0.name@ + " ground is taking too long"@,
            ),
            Deed::CancelTravel,
        ];
        assert(orders[given.len() as int + 1] == first[given.len() as int + 1]);
    } else if look.traveling {
        assert(orders.drop_last() =~= given);
    }
}

} // verus!
