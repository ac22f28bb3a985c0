//! Going where there is something to fight.

use crate::clock::{lately, seconds, since, spec_lately, spec_seconds, spec_since, Moment, Span};
use crate::config::{quiet_before_move, spec_quiet_before_move, Growth, Tactic};
use crate::hunt::{corners, patrol_point, spec_patrol_point, HuntArea, Shape, LEAST_CORNERS};
use crate::orders::{deeds, give, note, say, Deed, Doing, Order};
use crate::place::{about, in_fifties, Spot};
use crate::run::WALK_TIMEOUT;
use crate::setting_out::RETRY_AFTER;
use crate::single::Single;
use crate::state::{
    on_the_way, road_under_way, spec_on_the_way, spec_road_under_way, Ground, OnTheWay, Skipped,
    State, WALK_ON_EVERY,
};
use crate::text::{cat2, cat3, cat5, count, counted, show, shown};
use vstd::prelude::*;
use vstd::string::*;

verus! {

/// 30.0: standing this close to a ground's middle counts as being there.
pub const GROUND_REACH: u32 = 0x41f0_0000;

/// A ground the character has just left is not gone back to for this long; one
/// it could not reach, the same.
pub const SKIP_GROUND_FOR: u64 = 1_200_000_000_000;

/// 70.0: at a ground with nothing in sight, the character walks this far to
/// look.
pub const ROAM: u32 = 0x428c_0000;

/// How many times it does so before it moves on.
pub const ROAMS: u32 = 3;

/// 192.0: how wide a landblock is, in metres.
pub const BLOCK: u32 = 0x4340_0000;

/// 150.0: how far back to the door is near enough to walk.
pub const TO_THE_DOOR: u32 = 0x4316_0000;

/// 10.0 and 182.0: how far from the edges of its landblock a walk about the
/// ground keeps.
pub const EDGE: u32 = 0x4120_0000;

pub const FAR_EDGE: u32 = 0x4336_0000;

/// Where the character is, for planning a journey.
#[derive(Clone, Copy, Debug)]
pub struct Where {
    pub me: Spot,
    pub cell: u32,
    pub indoors: bool,
}

/// The landblock that a place lies in.
pub open spec fn block_at(p: Spot) -> u32 {
    (p.x.quotient(Single { bits: BLOCK }).cut() << 24u32) | (p.y.quotient(
        Single { bits: BLOCK },
    ).cut() << 16u32)
}

fn find_block(p: Spot) -> (r: u32)
    ensures
        r == block_at(p),
{
    let x: u32 = p.x.over(Single { bits: BLOCK }).to_u32();
    let y: u32 = p.y.over(Single { bits: BLOCK }).to_u32();
    (x << 24u32) | (y << 16u32)
}

/// How a journey is begun.
#[derive(Clone, Copy, Debug, PartialEq, Eq, Structural)]
pub enum Legs {
    /// There is nowhere to set off from.
    Nowhere,
    /// By a walk to this spot out of doors first, if there is a way to it, and
    /// else straight.
    OutFirst(Spot),
    /// Straight for the goal.
    Straight,
}

/// How a journey is begun: from inside a building the planner sees no way out
/// but a portal, so the walk begins with the spot the character last stood
/// outdoors. A dungeon has no door to step out of.
pub open spec fn legs(st: State, at: Option<Where>) -> Legs {
    match at {
        None => Legs::Nowhere,
        Some(w) => if w.indoors && !st.in_dungeon && st.last_outdoors is Some && block_at(
            st.last_outdoors->0,
        ) == w.cell & 0xffff_0000 && st.last_outdoors->0.spec_away(w.me).below(
            Single { bits: TO_THE_DOOR },
        ) {
            Legs::OutFirst(st.last_outdoors->0)
        } else {
            Legs::Straight
        },
    }
}

/// Set off for somewhere: how the journey is begun. One that begins with a walk
/// out of doors is told to [`stepped_outside`] once there is a way out.
pub fn grow_travel(st: &mut State, at: Option<Where>) -> (r: Legs)
    ensures
        r == legs(*old(st), at),
        *final(st) == (State { after_out: None, ..*old(st) }),
{
    st.after_out = None;
    match at {
        None => Legs::Nowhere,
        Some(w) => {
            if w.indoors && !st.in_dungeon {
                if let Some(door) = st.last_outdoors {
                    if find_block(door) == w.cell & 0xffff_0000 && door.away(w.me).lt(
                        Single { bits: TO_THE_DOOR },
                    ) {
                        return Legs::OutFirst(door);
                    }
                }
            }
            Legs::Straight
        },
    }
}

/// The walk out of doors was planned: the journey proper follows it.
pub fn stepped_outside(st: &mut State, goal: Spot, out: &mut Vec<Order>)
    ensures
        *final(st) == (State { after_out: Some(goal), ..*old(st) }),
        deeds(final(out)@) == deeds(old(out)@).push(Deed::Note("stepping outside first"@)),
{
    st.after_out = Some(goal);
    note(out, String::from_str("stepping outside first"));
}

/// The second leg of a journey begun indoors, to be planned once the walk out
/// has ended.
pub fn grow_travel_on(st: &mut State, traveling: bool) -> (r: Option<Spot>)
    ensures
        r == if traveling {
            None
        } else {
            old(st).after_out
        },
        *final(st) == if traveling {
            *old(st)
        } else {
            (State { after_out: None, ..*old(st) })
        },
{
    if traveling {
        None
    } else {
        st.after_out.take()
    }
}

/// The hunting ground this character is on or heading for. `here` is the ground
/// it hunts on, if the world knows one there.
pub fn hunting_ground(st: &State, here: Option<&Ground>) -> (r: Option<Ground>)
    ensures
        r == match st.bound {
            Some(g) => Some(g),
            None => match (st.hunting_at, here) {
                (Some(_), Some(g)) => Some(*g),
                _ => None,
            },
        },
{
    match &st.bound {
        Some(g) => Some(copy_ground(g)),
        None => match st.hunting_at {
            Some(_) => match here {
                Some(g) => Some(copy_ground(g)),
                None => None,
            },
            None => None,
        },
    }
}

pub fn copy_ground(g: &Ground) -> (r: Ground)
    ensures
        r == *g,
{
    Ground { landblock: g.landblock, at: g.at, name: g.name.clone() }
}

/// The ground the party is on, for a character that does not choose its own:
/// the leader's ground is the party's, so everyone comes back to the same one.
pub fn party_ground(team: bool, lead: bool, leaders: Option<&Ground>) -> (r: Option<Ground>)
    ensures
        r == if team && !lead && leaders is Some {
            Some(*leaders->0)
        } else {
            None
        },
{
    if !team || lead {
        return None;
    }
    match leaders {
        Some(g) => Some(copy_ground(g)),
        None => None,
    }
}

/// Whether the character is on its way somewhere it decided to go: one of the
/// growth rules' errands still has it walking, a road is under way or waiting
/// to be picked up again, or the leader it follows is on its way. `trip` and
/// `resumed` say of the journey under way and of the one remembered for after a
/// fight whether each is about its own ground.
pub fn on_its_way(
    st: &State,
    broken_off: bool,
    trip: Option<bool>,
    resumed: Option<bool>,
    leader_is: bool,
) -> (r: bool)
    ensures
        r == (((st.bound is Some || st.run is Some) && (trip is Some || broken_off || st.after_out
            is Some)) || spec_road_under_way(trip, resumed) || leader_is),
        leader_is || trip == Some(false) || resumed == Some(false) ==> r,
        r && !leader_is && resumed != Some(false) ==> trip is Some || broken_off || st.after_out
            is Some,
        r && !leader_is && st.bound is None && st.run is None ==> trip == Some(false) || resumed
            == Some(false),
{
    let walking = st.has_an_errand() && (trip.is_some() || broken_off || st.after_out.is_some());
    walking || road_under_way(trip, resumed) || leader_is
}

/// A body on the ground, and when it first came into sight.
#[derive(Clone, Copy, Debug, PartialEq, Eq, Structural)]
pub struct Body {
    pub guid: u32,
    pub seen: Moment,
}

pub open spec fn body_seen(seen: Seq<Body>, guid: u32) -> bool {
    exists|i: int| 0 <= i < seen.len() && (#[trigger] seen[i]).guid == guid
}

/// The bodies seen, with those of the first `n` in sight that are new, judged
/// by those seen before.
pub open spec fn with_fresh(seen: Seq<Body>, sight: Seq<u32>, now: Moment, n: nat) -> Seq<Body>
    decreases n,
{
    if n == 0 {
        seen
    } else {
        let rest = with_fresh(seen, sight, now, (n - 1) as nat);
        if body_seen(seen, sight[n - 1]) {
            rest
        } else {
            rest.push(Body { guid: sight[n - 1], seen: now })
        }
    }
}

/// Those of the first `n` bodies that may still lie there: not there twice as
/// long as a body lasts, and not emptied.
pub open spec fn still_lying(
    bodies: Seq<Body>,
    looted: Seq<u32>,
    life: Span,
    now: Moment,
    n: nat,
) -> Seq<Body>
    decreases n,
{
    if n == 0 {
        seq![]
    } else {
        let rest = still_lying(bodies, looted, life, now, (n - 1) as nat);
        let b = bodies[n - 1];
        if spec_since(now, b.seen) < 2 * life && !looted.contains(b.guid) {
            rest.push(b)
        } else {
            rest
        }
    }
}

fn is_seen(seen: &Vec<Body>, n: usize, guid: u32) -> (r: bool)
    requires
        n <= seen.len(),
    ensures
        r == body_seen(seen@.take(n as int), guid),
{
    let mut i: usize = 0;
    while i < n
        invariant
            i <= n <= seen.len(),
            forall|k: int| 0 <= k < i ==> (#[trigger] seen@[k]).guid != guid,
        decreases n - i,
    {
        if seen[i].guid == guid {
            assert(seen@.take(n as int)[i as int].guid == guid);
            return true;
        }
        i = i + 1;
    }
    assert forall|k: int| 0 <= k < seen@.take(n as int).len() implies (#[trigger] seen@.take(
        n as int,
    )[k]).guid != guid by {
        assert(seen@[k].guid != guid);
    }
    false
}

fn is_looted(looted: &Vec<u32>, guid: u32) -> (r: bool)
    ensures
        r == looted@.contains(guid),
{
    let mut i: usize = 0;
    while i < looted.len()
        invariant
            i <= looted.len(),
            forall|k: int| 0 <= k < i ==> looted@[k] != guid,
        decreases looted.len() - i,
    {
        if looted[i] == guid {
            return true;
        }
        i = i + 1;
    }
    false
}

/// Keep the two clocks that are read off the ground rather than off what the
/// character is doing: how long this spot has been quiet, and when each body
/// lying on it first came into sight. The quiet clock starts when there is
/// nothing here the character would fight and stops the moment something is. A
/// body is forgotten once emptied, or once it must be gone.
pub fn autoplay_watch_the_ground(
    st: &mut State,
    bodies: &mut Vec<Body>,
    sight: &Vec<u32>,
    looted: &Vec<u32>,
    life: Span,
    fight_in_sight: bool,
    now: Moment,
)
    requires
        life <= u64::MAX / 2,
    ensures
        ({
            let all = with_fresh(old(bodies)@, sight@, now, sight@.len());
            final(bodies)@ == still_lying(all, looted@, life, now, all.len())
        }),
        *final(st) == (State {
            quiet_since: if fight_in_sight {
                None
            } else if old(st).quiet_since is None {
                Some(now)
            } else {
                old(st).quiet_since
            },
            ..*old(st)
        }),
        fight_in_sight <==> final(st).quiet_since is None,
        final(st).quiet_since is Some && old(st).quiet_since is Some ==> final(st).quiet_since
            == old(st).quiet_since,
{
    let known: usize = bodies.len();
    let ghost before = bodies@;
    let mut i: usize = 0;
    while i < sight.len()
        invariant
            i <= sight.len(),
            known == before.len(),
            known <= bodies.len(),
            bodies@.take(known as int) =~= before,
            bodies@ == with_fresh(before, sight@, now, i as nat),
        decreases sight.len() - i,
    {
        if !is_seen(bodies, known, sight[i]) {
            let ghost so_far = bodies@;
            bodies.push(Body { guid: sight[i], seen: now });
            assert(bodies@.take(known as int) =~= so_far.take(known as int));
        }
        i = i + 1;
    }
    let mut left: Vec<Body> = Vec::new();
    i = 0;
    while i < bodies.len()
        invariant
            i <= bodies.len(),
            life <= u64::MAX / 2,
            left@ == still_lying(bodies@, looted@, life, now, i as nat),
        decreases bodies.len() - i,
    {
        let b = bodies[i];
        if since(now, b.seen) < 2 * life && !is_looted(looted, b.guid) {
            left.push(b);
        }
        i = i + 1;
    }
    *bodies = left;
    if fight_in_sight {
        st.quiet_since = None;
    } else if st.quiet_since.is_none() {
        st.quiet_since = Some(now);
    }
}

/// What the hunting step sees.
pub struct HuntLook<'a> {
    /// Where the character stands, once it is in the world.
    pub me: Option<Spot>,
    pub cell: u32,
    pub traveling: bool,
    /// The last journey was ended by something else the character went to do.
    pub broken_off: bool,
    /// It has something to fight that is still alive.
    pub busy: bool,
    pub level: i32,
    pub area: Option<&'a HuntArea>,
    /// It follows a leader, who goes looking for it.
    pub follows: bool,
    /// It leads, and waits for a follower still fighting or left behind.
    pub stragglers: bool,
    /// How this ground is hunted, by the player's setting and the ground's own.
    pub tactic: Tactic,
    /// The status line says that it is idle.
    pub idle: bool,
    /// The ways a walk about the ground heads, in turn.
    pub headings: &'a [Spot],
    /// The corner of the landblock it stands in.
    pub origin: Spot,
    /// The ground the player named, where the world knows one there.
    pub pinned: Option<&'a Ground>,
    /// The ground the party is on.
    pub party: Option<&'a Ground>,
}

/// What the hunting step comes to, or what it has to ask first.
#[derive(Clone, Debug)]
pub enum HuntNext {
    /// It is over, and says whether it did something.
    Done(bool),
    /// Plan the journey proper, now that the walk out of doors has ended.
    TravelOn(Spot),
    /// Plan the walk to the ground again.
    WalkOn(Spot),
    /// Plan a walk about the hunting area.
    AboutArea(Spot),
    /// Plan a walk about the ground.
    Roam(Spot),
    /// Plan the journey to a ground that was named, or is the party's.
    GoTo { ground: Ground, named: bool },
    /// Find the nearest ground that suits, none of those given.
    Find(Vec<u32>),
}

/// The character is at the ground it is bound for.
pub open spec fn at_ground(g: Ground, look: HuntLook, me: Spot) -> bool {
    look.cell / 0x1_0000 == g.landblock || g.at.spec_away(me).at_most(
        Single { bits: GROUND_REACH },
    )
}

/// The walk to a ground has taken too long.
pub open spec fn too_long(st: State, now: Moment) -> bool {
    st.bound_since is Some && spec_since(now, st.bound_since->0) > WALK_TIMEOUT
}

/// What is remembered and asked for once the walk to a ground has ended: at the
/// ground, or short of it.
pub open spec fn ended(st: State, g: Ground, there: bool, skip: Vec<Skipped>) -> State {
    if there {
        State {
            bound: None,
            hunting_at: Some(g.landblock),
            quiet_since: None,
            roams: 0,
            ..st
        }
    } else {
        State { bound: None, skip, ..st }
    }
}

pub open spec fn ended_deed(g: Ground, there: bool) -> Deed {
    if there {
        Deed::Note("at the hunting ground: "@ + g.name@)
    } else {
        Deed::Note("could not reach the "@ + g.name@ + " ground; another"@)
    }
}

fn end_walk(st: &mut State, there: bool, now: Moment, out: &mut Vec<Order>) -> (r: HuntNext)
    requires
        old(st).bound is Some,
    ensures
        r == HuntNext::Done(false),
        ({
            let g = old(st).bound->0;
            &&& *final(st) == ended(*old(st), g, there, final(st).skip)
            &&& !there ==> final(st).skip@ == old(st).skip@.push(
                Skipped { landblock: g.landblock, since: now },
            )
            &&& deeds(final(out)@) == deeds(old(out)@).push(ended_deed(g, there))
        }),
{
    if let Some(g) = st.bound.take() {
        if there {
            st.hunting_at = Some(g.landblock);
            st.quiet_since = None;
            st.roams = 0;
            note(out, cat2("at the hunting ground: ", g.name.as_str()));
        } else {
            st.skip.push(Skipped { landblock: g.landblock, since: now });
            note(out, cat3("could not reach the ", g.name.as_str(), " ground; another"));
        }
    }
    HuntNext::Done(false)
}

/// What is said on the walk to a ground.
pub open spec fn going_to_hunt(g: Ground, me: Spot) -> Deed {
    Deed::Say(
        Doing::Traveling,
        "going to hunt "@ + g.name@ + " ("@ + (counted(in_fifties(g.at.spec_away(me)) as nat)
            + " m"@) + ")"@,
    )
}

fn walk_to_ground(st: &State, me: Spot, out: &mut Vec<Order>) -> (r: HuntNext)
    requires
        st.bound is Some,
    ensures
        r == HuntNext::Done(true),
        deeds(final(out)@) == deeds(old(out)@).push(going_to_hunt(st.bound->0, me)),
{
    if let Some(g) = &st.bound {
        let far = about(g.at.away(me));
        say(
            out,
            Doing::Traveling,
            cat5("going to hunt ", g.name.as_str(), " (", far.as_str(), ")"),
        );
    }
    HuntNext::Done(true)
}

/// What a walk to a ground with no journey under way comes to. `broken_off`
/// says that something else broke the journey off.
pub open spec fn halted(
    before: State,
    after: State,
    look: HuntLook,
    me: Spot,
    broken_off: bool,
    now: Moment,
    given: Seq<Deed>,
    orders: Seq<Deed>,
    r: HuntNext,
) -> bool {
    let g = before.bound->0;
    let there = at_ground(g, look, me);
    match spec_on_the_way(
        there,
        broken_off,
        look.busy,
        spec_lately(before.bound_walked_on, now, WALK_ON_EVERY),
    ) {
        OnTheWay::Wait => after == before && orders == given && r == HuntNext::Done(true),
        OnTheWay::WalkOn => after == before && orders == given && r == HuntNext::WalkOn(g.at),
        _ => {
            &&& after == ended(before, g, there, after.skip)
            &&& !there ==> after.skip@ == before.skip@.push(
                Skipped { landblock: g.landblock, since: now },
            )
            &&& orders == given.push(ended_deed(g, there))
            &&& r == HuntNext::Done(false)
        },
    }
}

fn halt(
    st: &mut State,
    look: &HuntLook,
    me: Spot,
    broken_off: bool,
    now: Moment,
    out: &mut Vec<Order>,
) -> (r: HuntNext)
    requires
        old(st).bound is Some,
    ensures
        halted(
            *old(st),
            *final(st),
            *look,
            me,
            broken_off,
            now,
            deeds(old(out)@),
            deeds(final(out)@),
            r,
        ),
{
    let (landblock, at) = match &st.bound {
        Some(g) => (g.landblock, g.at),
        None => (0, me),
    };
    let there = look.cell / 0x1_0000 == landblock || at.away(me).le(Single { bits: GROUND_REACH });
    let again = lately(st.bound_walked_on, now, WALK_ON_EVERY);
    match on_the_way(there, broken_off, look.busy, again) {
        OnTheWay::Wait => HuntNext::Done(true),
        OnTheWay::WalkOn => HuntNext::WalkOn(at),
        OnTheWay::There | OnTheWay::Short => end_walk(st, there, now, out),
    }
}

/// The journey proper to a ground was planned, or could not be.
pub fn hunt_traveled_on(
    st: &mut State,
    look: &HuntLook,
    way: bool,
    now: Moment,
    out: &mut Vec<Order>,
) -> (r: HuntNext)
    ensures
        match (old(st).bound, look.me) {
            (Some(g), Some(me)) => if way {
                &&& *final(st) == *old(st)
                &&& deeds(final(out)@) == deeds(old(out)@).push(going_to_hunt(g, me))
                &&& r == HuntNext::Done(true)
            } else {
                halted(
                    *old(st),
                    *final(st),
                    *look,
                    me,
                    look.broken_off,
                    now,
                    deeds(old(out)@),
                    deeds(final(out)@),
                    r,
                )
            },
            _ => *final(st) == *old(st) && final(out)@ == old(out)@ && r == HuntNext::Done(false),
        },
{
    match look.me {
        Some(me) => {
            if st.bound.is_some() {
                return if way {
                    walk_to_ground(st, me, out)
                } else {
                    halt(st, look, me, look.broken_off, now, out)
                };
            }
        },
        None => {},
    }
    HuntNext::Done(false)
}

/// The walk to a ground was planned again, or could not be: then it is one that
/// could not be reached.
pub fn hunt_walked_on(st: &mut State, me: Spot, way: bool, now: Moment, out: &mut Vec<Order>) -> (r:
    HuntNext)
    requires
        old(st).bound is Some,
    ensures
        r == HuntNext::Done(way),
        ({
            let g = old(st).bound->0;
            if way {
                &&& *final(st) == (State { bound_walked_on: Some(now), ..*old(st) })
                &&& deeds(final(out)@) == deeds(old(out)@).push(
                    Deed::Note(
                        "on the way to the "@ + g.name@ + " ground again ("@ + shown(
                            g.at.spec_away(me),
                        ) + " m)"@,
                    ),
                )
            } else {
                &&& *final(st) == ended(*old(st), g, false, final(st).skip)
                &&& final(st).skip@ == old(st).skip@.push(
                    Skipped { landblock: g.landblock, since: now },
                )
                &&& deeds(final(out)@) == deeds(old(out)@).push(ended_deed(g, false))
            }
        }),
{
    if !way {
        return end_walk(st, false, now, out);
    }
    if let Some(g) = &st.bound {
        let far = show(g.at.away(me));
        note(
            out,
            cat5(
                "on the way to the ",
                g.name.as_str(),
                " ground again (",
                far.as_str(),
                " m)",
            ),
        );
    }
    st.bound_walked_on = Some(now);
    HuntNext::Done(true)
}

/// Those of the first `n` grounds left alone that are left alone still.
pub open spec fn skips_left(skip: Seq<Skipped>, now: Moment, n: nat) -> Seq<Skipped>
    decreases n,
{
    if n == 0 {
        seq![]
    } else {
        let rest = skips_left(skip, now, (n - 1) as nat);
        if spec_since(now, skip[n - 1].since) < SKIP_GROUND_FOR {
            rest.push(skip[n - 1])
        } else {
            rest
        }
    }
}

/// The grounds not to go to: those left alone, the one here and the one hunted
/// on.
pub open spec fn avoided(skip: Seq<Skipped>, here: u32, hunting_at: Option<u32>) -> Seq<u32> {
    let left = skip.map_values(|s: Skipped| s.landblock).push(here);
    match hunting_at {
        Some(h) => left.push(h),
        None => left,
    }
}

/// The ground the party hunts: the one the player named, and else the one the
/// party is on.
pub open spec fn named_ground(look: HuntLook, cfg: Growth) -> Option<(Ground, bool)> {
    if cfg.hunt_at != 0 && look.pinned is Some {
        Some((*look.pinned->0, true))
    } else if look.party is Some {
        Some((*look.party->0, false))
    } else {
        None
    }
}

/// What choosing a ground comes to, `left` the grounds left alone.
pub open spec fn ground_choice(st: State, left: Seq<Skipped>, look: HuntLook, cfg: Growth, r: HuntNext) -> bool {
    let here = (look.cell / 0x1_0000) as u32;
    match named_ground(look, cfg) {
        Some((g, named)) if st.hunting_at != Some(g.landblock) => r == (HuntNext::GoTo {
            ground: g,
            named,
        }),
        Some((_, true)) => r == HuntNext::Done(false),
        _ => if look.follows {
            r == HuntNext::Done(false)
        } else {
            r is Find && r->Find_0@ == avoided(left, here, st.hunting_at)
        },
    }
}

fn forget_skips(st: &mut State, now: Moment)
    ensures
        final(st).skip@ == skips_left(old(st).skip@, now, old(st).skip@.len()),
        *final(st) == (State { skip: final(st).skip, ..*old(st) }),
{
    let mut left: Vec<Skipped> = Vec::new();
    let mut i: usize = 0;
    while i < st.skip.len()
        invariant
            i <= st.skip.len(),
            *st == *old(st),
            left@ == skips_left(st.skip@, now, i as nat),
        decreases st.skip.len() - i,
    {
        if since(now, st.skip[i].since) < SKIP_GROUND_FOR {
            left.push(st.skip[i]);
        }
        i = i + 1;
    }
    st.skip = left;
}

fn find_elsewhere(st: &State, here: u32) -> (r: HuntNext)
    ensures
        r is Find,
        r->Find_0@ == avoided(st.skip@, here, st.hunting_at),
{
    let mut skip: Vec<u32> = Vec::new();
    let mut i: usize = 0;
    while i < st.skip.len()
        invariant
            i <= st.skip.len(),
            skip@ == st.skip@.take(i as int).map_values(|s: Skipped| s.landblock),
        decreases st.skip.len() - i,
    {
        skip.push(st.skip[i].landblock);
        assert(skip@ =~= st.skip@.take(i + 1).map_values(|s: Skipped| s.landblock));
        i = i + 1;
    }
    assert(st.skip@.take(i as int) =~= st.skip@);
    skip.push(here);
    if let Some(h) = st.hunting_at {
        skip.push(h);
    }
    HuntNext::Find(skip)
}

/// Choose a ground to go to: the one the player named, else the one the party
/// is on, else, for the one who goes looking, the nearest that suits.
pub fn choose_ground(st: &mut State, look: &HuntLook, cfg: &Growth, now: Moment) -> (r: HuntNext)
    ensures
        final(st).skip@ == skips_left(old(st).skip@, now, old(st).skip@.len()),
        *final(st) == (State { skip: final(st).skip, ..*old(st) }),
        ground_choice(*old(st), final(st).skip@, *look, *cfg, r),
{
    forget_skips(st, now);
    let here: u32 = look.cell / 0x1_0000;
    let pinned = cfg.hunt_at != 0 && look.pinned.is_some();
    let ground = if pinned {
        look.pinned
    } else {
        look.party
    };
    if let Some(g) = ground {
        let there = match st.hunting_at {
            Some(h) => h == g.landblock,
            None => false,
        };
        if !there {
            return HuntNext::GoTo { ground: copy_ground(g), named: pinned };
        }
    }
    if pinned || look.follows {
        return HuntNext::Done(false);
    }
    find_elsewhere(st, here)
}

/// Where a walk about the ground goes: some way off in one of the directions,
/// kept inside the landblock.
pub open spec fn roam_goal(me: Spot, heading: Spot, origin: Spot) -> Spot {
    let far = Single { bits: ROAM };
    let low = Single { bits: EDGE };
    let high = Single { bits: FAR_EDGE };
    Spot {
        x: me.x.sum(heading.x.product(far)).larger(origin.x.sum(low)).smaller(origin.x.sum(high)),
        y: me.y.sum(heading.y.product(far)).larger(origin.y.sum(low)).smaller(origin.y.sum(high)),
    }
}

fn make_roam_goal(me: Spot, heading: Spot, origin: Spot) -> (r: Spot)
    ensures
        r == roam_goal(me, heading, origin),
{
    let far = Single { bits: ROAM };
    let low = Single { bits: EDGE };
    let high = Single { bits: FAR_EDGE };
    Spot {
        x: me.x.plus(heading.x.times(far)).max(origin.x.plus(low)).min(origin.x.plus(high)),
        y: me.y.plus(heading.y.times(far)).max(origin.y.plus(low)).min(origin.y.plus(high)),
    }
}

/// It is time to look elsewhere: this spot has had nothing on it for long
/// enough, and nothing else has the character.
pub open spec fn restless(st: State, look: HuntLook, cfg: Growth, now: Moment) -> bool {
    &&& look.level > 0
    &&& st.quiet_since is Some
    &&& !look.traveling
    &&& !spec_seconds(spec_since(now, st.quiet_since->0)).below(
        spec_quiet_before_move(cfg, look.area is Some),
    )
    &&& !(st.next_hunt is Some && now < st.next_hunt->0)
    &&& !(!look.follows && look.stragglers)
}

/// How often a ground is walked about before it is given up.
pub open spec fn roams_allowed(tactic: Tactic) -> u32 {
    if tactic == Tactic::Patrol {
        u32::MAX
    } else {
        ROAMS
    }
}

/// What looking elsewhere comes to: what is remembered but for the grounds left
/// alone, what is asked for, and what comes next, none where a ground is to be
/// chosen.
pub open spec fn looked(st: State, look: HuntLook, cfg: Growth, me: Spot, now: Moment) -> (
    State,
    Seq<Deed>,
    Option<HuntNext>,
) {
    let here = (look.cell / 0x1_0000) as u32;
    let no = Some(HuntNext::Done(false));
    if !restless(st, look, cfg, now) {
        (st, seq![], no)
    } else {
        match look.area {
            Some(area) => match area.shape {
                Shape::Outline { points } => if look.follows || points@.len() < LEAST_CORNERS {
                    (st, seq![], no)
                } else {
                    (
                        State {
                            roams: if st.roams == u32::MAX {
                                0
                            } else {
                                (st.roams + 1) as u32
                            },
                            quiet_since: Some(now),
                            ..st
                        },
                        seq![],
                        Some(HuntNext::AboutArea(spec_patrol_point(points@, st.roams))),
                    )
                },
                Shape::Dungeon { .. } => (st, seq![], no),
            },
            None => if look.tactic == Tactic::Camp && st.hunting_at == Some(here) {
                (
                    State { quiet_since: Some(now), ..st },
                    if look.idle {
                        seq![]
                    } else {
                        seq![Deed::Say(Doing::Idle, "holding the spot; they come to us"@)]
                    },
                    no,
                )
            } else if !look.follows && st.hunting_at == Some(here) && st.roams < roams_allowed(
                look.tactic,
            ) {
                (
                    State { roams: (st.roams + 1) as u32, quiet_since: Some(now), ..st },
                    seq![],
                    Some(
                        HuntNext::Roam(
                            roam_goal(me, look.headings@[st.roams as int % 3], look.origin),
                        ),
                    ),
                )
            } else {
                (st, seq![], None)
            },
        }
    }
}

#[verifier::spinoff_prover]
#[verifier::rlimit(60)]
fn look_elsewhere(
    st: &mut State,
    look: &HuntLook,
    cfg: &Growth,
    me: Spot,
    now: Moment,
    out: &mut Vec<Order>,
) -> (r: HuntNext)
    requires
        look.headings@.len() == ROAMS,
    ensures
        ({
            let p = looked(*old(st), *look, *cfg, me, now);
            &&& deeds(final(out)@) == deeds(old(out)@) + p.1
            &&& *final(st) == (State { skip: final(st).skip, ..p.0 })
            &&& match p.2 {
                Some(next) => r == next && final(st).skip == old(st).skip,
                None => {
                    &&& final(st).skip@ == skips_left(old(st).skip@, now, old(st).skip@.len())
                    &&& ground_choice(p.0, final(st).skip@, *look, *cfg, r)
                },
            }
        }),
{
    let ghost p = looked(*st, *look, *cfg, me, now);
    assert(deeds(out@) =~= deeds(old(out)@) + Seq::<Deed>::empty());
    if look.level <= 0 {
        return HuntNext::Done(false);
    }
    let quiet = match st.quiet_since {
        Some(t) => t,
        None => {
            return HuntNext::Done(false);
        },
    };
    if look.traveling {
        return HuntNext::Done(false);
    }
    if seconds(since(now, quiet)).lt(quiet_before_move(cfg, look.area.is_some())) {
        return HuntNext::Done(false);
    }
    if let Some(t) = st.next_hunt {
        if now < t {
            return HuntNext::Done(false);
        }
    }
    if !look.follows && look.stragglers {
        return HuntNext::Done(false);
    }
    if let Some(area) = look.area {
        if look.follows {
            return HuntNext::Done(false);
        }
        return match corners(area) {
            None => HuntNext::Done(false),
            Some(points) => {
                if points.len() < LEAST_CORNERS {
                    return HuntNext::Done(false);
                }
                let n: u32 = st.roams;
                st.roams = if n == u32::MAX {
                    0
                } else {
                    n + 1
                };
                st.quiet_since = Some(now);
                HuntNext::AboutArea(patrol_point(points.as_slice(), n))
            },
        };
    }
    let here: u32 = look.cell / 0x1_0000;
    let home = match st.hunting_at {
        Some(h) => h == here,
        None => false,
    };
    if look.tactic == Tactic::Camp && home {
        if !look.idle {
            say(out, Doing::Idle, String::from_str("holding the spot; they come to us"));
        }
        st.quiet_since = Some(now);
        assert(deeds(out@) =~= deeds(old(out)@) + p.1);
        return HuntNext::Done(false);
    }
    let most: u32 = if look.tactic == Tactic::Patrol {
        u32::MAX
    } else {
        ROAMS
    };
    if !look.follows && home && st.roams < most {
        let n: usize = (st.roams % ROAMS) as usize;
        st.roams = st.roams + 1;
        st.quiet_since = Some(now);
        return HuntNext::Roam(make_roam_goal(me, look.headings[n], look.origin));
    }
    choose_ground(st, look, cfg, now)
}

/// What the hunting step comes to on the way to a ground: what was given before
/// and what after, with the journey cancelled where it took too long.
pub open spec fn hunt_bound(
    before: State,
    after: State,
    look: HuntLook,
    me: Spot,
    now: Moment,
    given: Seq<Deed>,
    orders: Seq<Deed>,
    r: HuntNext,
) -> bool {
    let g = before.bound->0;
    if too_long(before, now) {
        halted(
            before,
            after,
            look,
            me,
            false,
            now,
            given + seq![
                Deed::Note("the walk to the "@ + g.name@ + " ground is taking too long"@),
                Deed::CancelTravel,
            ],
            orders,
            r,
        )
    } else if look.traveling {
        &&& after == before
        &&& orders == given.push(going_to_hunt(g, me))
        &&& r == HuntNext::Done(true)
    } else if before.after_out is Some {
        &&& after == (State { after_out: None, ..before })
        &&& orders == given
        &&& r == HuntNext::TravelOn(before.after_out->0)
    } else {
        halted(before, after, look, me, look.broken_off, now, given, orders, r)
    }
}

/// Go somewhere with monsters when there have been none for a while: what the
/// step comes to, or what it has to ask first. The answers are given to
/// [`hunt_traveled_on`], [`hunt_walked_on`], [`looked_about_area`],
/// [`hunt_roamed`], [`road_planned`] and [`ground_found`].
///
/// On the way to a ground it keeps going and notices arriving; a walk broken off
/// by a corpse or a fight is taken up again. Otherwise, once this spot has been
/// quiet for long enough, a hunting area is walked about corner by corner, a
/// ground that spawns hard is held, another is walked about, and a quiet one is
/// left for the next.
pub fn grow_hunt(
    st: &mut State,
    look: &HuntLook,
    cfg: &Growth,
    now: Moment,
    out: &mut Vec<Order>,
) -> (r: HuntNext)
    requires
        look.headings@.len() == ROAMS,
    ensures
        look.me is None ==> {
            &&& *final(st) == *old(st)
            &&& final(out)@ == old(out)@
            &&& r == HuntNext::Done(false)
        },
        look.me is Some && old(st).bound is Some ==> hunt_bound(
            *old(st),
            *final(st),
            *look,
            look.me->0,
            now,
            deeds(old(out)@),
            deeds(final(out)@),
            r,
        ),
        look.me is Some && old(st).bound is None ==> {
            let p = looked(*old(st), *look, *cfg, look.me->0, now);
            &&& deeds(final(out)@) == deeds(old(out)@) + p.1
            &&& *final(st) == (State { skip: final(st).skip, ..p.0 })
            &&& match p.2 {
                Some(next) => r == next && final(st).skip == old(st).skip,
                None => {
                    &&& final(st).skip@ == skips_left(old(st).skip@, now, old(st).skip@.len())
                    &&& ground_choice(p.0, final(st).skip@, *look, *cfg, r)
                },
            }
        },
{
    let me = match look.me {
        Some(me) => me,
        None => {
            return HuntNext::Done(false);
        },
    };
    if st.bound.is_none() {
        return look_elsewhere(st, look, cfg, me, now, out);
    }
    let late = match st.bound_since {
        Some(t) => since(now, t) > WALK_TIMEOUT,
        None => false,
    };
    if late {
        if let Some(g) = &st.bound {
            note(
                out,
                cat3("the walk to the ", g.name.as_str(), " ground is taking too long"),
            );
        }
        give(out, Order::CancelTravel);
        assert(deeds(out@) =~= deeds(old(out)@) + seq![
            Deed::Note("the walk to the "@ + st.bound->0.name@ + " ground is taking too long"@),
            Deed::CancelTravel,
        ]);
        return halt(st, look, me, false, now, out);
    }
    if look.traveling {
        return walk_to_ground(st, me, out);
    }
    if let Some(goal) = st.after_out {
        st.after_out = None;
        return HuntNext::TravelOn(goal);
    }
    halt(st, look, me, look.broken_off, now, out)
}

/// A walk about the hunting area was planned, or could not be.
pub fn looked_about_area(area: &HuntArea, way: bool, out: &mut Vec<Order>) -> (r: bool)
    ensures
        r == way,
        deeds(final(out)@) == if way {
            deeds(old(out)@).push(
                Deed::Say(
                    Doing::Traveling,
                    "nothing in sight; looking about "@ + area.name@,
                ),
            )
        } else {
            deeds(old(out)@)
        },
{
    if way {
        say(
            out,
            Doing::Traveling,
            cat2("nothing in sight; looking about ", area.name.as_str()),
        );
    }
    way
}

/// A walk about the ground was planned, or could not be: then another ground is
/// chosen.
pub fn hunt_roamed(
    st: &mut State,
    look: &HuntLook,
    cfg: &Growth,
    way: bool,
    now: Moment,
    out: &mut Vec<Order>,
) -> (r: HuntNext)
    ensures
        way ==> {
            &&& *final(st) == *old(st)
            &&& r == HuntNext::Done(true)
            &&& deeds(final(out)@) == deeds(old(out)@).push(
                Deed::Say(Doing::Traveling, "nothing in sight; looking about the ground"@),
            )
        },
        !way ==> {
            &&& final(out)@ == old(out)@
            &&& final(st).skip@ == skips_left(old(st).skip@, now, old(st).skip@.len())
            &&& *final(st) == (State { skip: final(st).skip, ..*old(st) })
            &&& ground_choice(*old(st), final(st).skip@, *look, *cfg, r)
        },
{
    if way {
        say(
            out,
            Doing::Traveling,
            String::from_str("nothing in sight; looking about the ground"),
        );
        return HuntNext::Done(true);
    }
    choose_ground(st, look, cfg, now)
}

/// The journey to a ground that was named, or is the party's, was planned, or
/// could not be. Asked for somewhere it cannot plan a way to, the character says
/// so and tries again later; picking somewhere else would be answering a
/// question nobody asked.
pub fn road_planned(
    st: &mut State,
    look: &HuntLook,
    ground: Ground,
    named: bool,
    way: bool,
    now: Moment,
    out: &mut Vec<Order>,
) -> (r: HuntNext)
    requires
        now <= u64::MAX - RETRY_AFTER,
    ensures
        way ==> {
            &&& *final(st) == (State {
                bound: Some(ground),
                bound_since: Some(now),
                quiet_since: None,
                ..*old(st)
            })
            &&& r == HuntNext::Done(true)
            &&& deeds(final(out)@) == deeds(old(out)@).push(
                Deed::Say(Doing::Traveling, "on the way to "@ + ground.name@),
            )
        },
        !way && named ==> {
            &&& *final(st) == (State {
                quiet_since: Some(now),
                next_hunt: Some((now + RETRY_AFTER) as u64),
                ..*old(st)
            })
            &&& r == HuntNext::Done(false)
            &&& final(st).next_hunt == Some((now + 30_000_000_000) as u64)
            &&& deeds(final(out)@) == deeds(old(out)@).push(
                Deed::Note(
                    "cannot find a way to "@ + ground.name@ + " from here; will try again"@,
                ),
            )
        },
        !way && !named ==> {
            &&& *final(st) == *old(st)
            &&& final(out)@ == old(out)@
            &&& if look.follows {
                r == HuntNext::Done(false)
            } else {
                r is Find && r->Find_0@ == avoided(
                    old(st).skip@,
                    (look.cell / 0x1_0000) as u32,
                    old(st).hunting_at,
                )
            }
        },
{
    if way {
        say(out, Doing::Traveling, cat2("on the way to ", ground.name.as_str()));
        st.bound = Some(ground);
        st.bound_since = Some(now);
        st.quiet_since = None;
        return HuntNext::Done(true);
    }
    if named {
        note(
            out,
            cat3("cannot find a way to ", ground.name.as_str(), " from here; will try again"),
        );
        st.quiet_since = Some(now);
        st.next_hunt = Some(now + RETRY_AFTER);
        return HuntNext::Done(false);
    }
    if look.follows {
        return HuntNext::Done(false);
    }
    find_elsewhere(st, look.cell / 0x1_0000)
}

/// A ground that suits, with the levels it is for.
#[derive(Clone, Debug)]
pub struct Found {
    pub ground: Ground,
    pub min_level: u32,
    pub max_level: u32,
}

/// The nearest ground that suits was looked for; the journey to it, if there is
/// one, is planned next, and its outcome given to [`ground_planned`].
pub fn ground_found(
    st: &mut State,
    found: &Option<Found>,
    level: u32,
    margin: u32,
    now: Moment,
    out: &mut Vec<Order>,
) -> (r: bool)
    ensures
        r == (*found is Some),
        r ==> *final(st) == *old(st) && final(out)@ == old(out)@,
        !r ==> {
            &&& *final(st) == (State { quiet_since: Some(now), ..*old(st) })
            &&& deeds(final(out)@) == deeds(old(out)@).push(
                Deed::Note(
                    "no hunting ground suits level "@ + counted(level as nat) + " within "@
                        + counted(margin as nat) + " levels"@,
                ),
            )
        },
{
    if found.is_some() {
        return true;
    }
    let l = count(level as u128);
    let m = count(margin as u128);
    note(
        out,
        cat5(
            "no hunting ground suits level ",
            l.as_str(),
            " within ",
            m.as_str(),
            " levels",
        ),
    );
    st.quiet_since = Some(now);
    false
}

/// What is said on setting out for a ground that suits.
pub open spec fn going_to_find(found: Found, me: Spot) -> Seq<char> {
    "nothing about; going to hunt "@ + found.ground.name@ + " (levels "@ + counted(
        found.min_level as nat,
    ) + "-"@ + counted(found.max_level as nat) + ", "@ + (counted(
        in_fifties(found.ground.at.spec_away(me)) as nat,
    ) + " m"@) + ")"@
}

/// The journey to a ground that suits was planned, or could not be. The ground
/// left, and one that could not be reached, are left alone for a while.
pub fn ground_planned(
    st: &mut State,
    found: Found,
    me: Spot,
    way: bool,
    now: Moment,
    out: &mut Vec<Order>,
) -> (r: bool)
    requires
        now <= u64::MAX - RETRY_AFTER,
    ensures
        r == way,
        way ==> {
            &&& *final(st) == (State {
                bound: Some(found.ground),
                bound_since: Some(now),
                quiet_since: None,
                hunting_at: None,
                skip: final(st).skip,
                ..*old(st)
            })
            &&& final(st).skip@ == match old(st).hunting_at {
                Some(h) => old(st).skip@.push(Skipped { landblock: h, since: now }),
                None => old(st).skip@,
            }
            &&& deeds(final(out)@) == deeds(old(out)@).push(
                Deed::Say(Doing::Traveling, going_to_find(found, me)),
            )
        },
        !way ==> {
            &&& *final(st) == (State {
                quiet_since: None,
                next_hunt: Some((now + RETRY_AFTER) as u64),
                skip: final(st).skip,
                ..*old(st)
            })
            &&& final(st).skip@ == old(st).skip@.push(
                Skipped { landblock: found.ground.landblock, since: now },
            )
            &&& deeds(final(out)@) == deeds(old(out)@).push(
                Deed::Note("no way to the "@ + found.ground.name@ + " ground from here"@),
            )
            &&& final(st).next_hunt == Some((now + 30_000_000_000) as u64)
        },
{
    if !way {
        st.skip.push(Skipped { landblock: found.ground.landblock, since: now });
        st.quiet_since = None;
        st.next_hunt = Some(now + RETRY_AFTER);
        note(out, cat3("no way to the ", found.ground.name.as_str(), " ground from here"));
        return false;
    }
    let low = count(found.min_level as u128);
    let high = count(found.max_level as u128);
    let far = about(found.ground.at.away(me));
    let first = cat5(
        "nothing about; going to hunt ",
        found.ground.name.as_str(),
        " (levels ",
        low.as_str(),
        "-",
    );
    let text = cat5(first.as_str(), high.as_str(), ", ", far.as_str(), ")");
    say(out, Doing::Traveling, text);
    st.bound = Some(found.ground);
    st.bound_since = Some(now);
    st.quiet_since = None;
    if let Some(h) = st.hunting_at.take() {
        st.skip.push(Skipped { landblock: h, since: now });
    }
    true
}

/// A ground being left alone is never among those looked for, nor is the one
/// stood on or hunted on.
pub proof fn law_a_skipped_ground_is_avoided(skip: Seq<Skipped>, here: u32, hunting_at: Option<u32>)
    ensures
        forall|i: int|
            0 <= i < skip.len() ==> avoided(skip, here, hunting_at).contains(
                (#[trigger] skip[i]).landblock,
            ),
        avoided(skip, here, hunting_at).contains(here),
        hunting_at is Some ==> avoided(skip, here, hunting_at).contains(hunting_at->0),
{
    let a = avoided(skip, here, hunting_at);
    assert forall|i: int| 0 <= i < skip.len() implies a.contains((#[trigger] skip[i]).landblock) by {
        assert(a[i] == skip[i].landblock);
    }
    assert(a[skip.len() as int] == here);
    if hunting_at is Some {
        assert(a[skip.len() as int + 1] == hunting_at->0);
    }
}

} // verus!
