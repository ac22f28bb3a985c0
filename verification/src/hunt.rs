//! Where to hunt: an area a player draws on the map.
//!
//! A hunting area is a shape with a name: an outline drawn on the map, its
//! corners in world xy, for a place out in the open (buildings inside it count
//! as inside); or a dungeon, the whole of it or only the rooms chosen on its
//! map. The one question asked of it is: is this inside?

use crate::hunt_laws::{heads_for, law_a_patrol_heads_for_its_corner};
use crate::orders::{deeds, note, say, Deed, Doing, Order};
use crate::place::{Point, Spot};
use crate::single::Single;
use crate::text::{cat2, cat3, cat4, cat5, count, counted, four_hex, hex4};
use vstd::prelude::*;
use vstd::string::*;

verus! {

/// 30.0: something hitting the character is fought if it stands this near,
/// wherever that is: an area says where to look for fights, not which ones to
/// lose.
pub const DEFEND_REACH: u32 = 0x41f0_0000;

/// 3.0: walking back into an outline stops this close to the way in.
pub const BACK_IN: u32 = 0x4040_0000;

/// The fewest corners that enclose anything.
pub const LEAST_CORNERS: usize = 3;

/// 0.25, 0.5 and 0.75.
pub const QUARTER: u32 = 0x3e80_0000;

pub const HALFWAY: u32 = 0x3f00_0000;

pub const THREE_QUARTERS: u32 = 0x3f40_0000;

/// 0.7 and 0.3.
pub const MOST_OF_THE_WAY: u32 = 0x3f33_3333;

pub const SOME_OF_THE_WAY: u32 = 0x3e99_999a;

/// 1.0
pub const ALL_THE_WAY: u32 = 0x3f80_0000;

/// What a hunting area covers.
#[derive(Clone, Debug)]
pub enum Shape {
    /// An outline on the map: its corners in world xy, in order.
    Outline { points: Vec<Spot> },
    /// A dungeon (its landblock, `xxyy0000`): every room when `rooms` is empty,
    /// otherwise only those cells.
    Dungeon { landblock: u32, rooms: Vec<u32> },
}

/// A named place to hunt.
#[derive(Clone, Debug)]
pub struct HuntArea {
    pub name: String,
    pub shape: Shape,
}

/// Where a level line through `p` meets the edge between `a` and `b`, reckoned
/// from `a`.
pub open spec fn meets(p: Spot, a: Spot, b: Spot) -> Single {
    a.x.sum(
        p.y.sum(a.y.opposite()).product(b.x.sum(a.x.opposite())).quotient(
            b.y.sum(a.y.opposite()),
        ),
    )
}

/// A line from `p` to the right crosses the edge from `a` to `b`.
#[verifier::opaque]
pub open spec fn crosses(p: Spot, a: Spot, b: Spot) -> bool {
    p.y.below(a.y) != p.y.below(b.y) && p.x.below(meets(p, a, b))
}

/// How many of the edges that end at the first `n` corners a line from `p` to
/// the right crosses.
pub open spec fn crossings(p: Spot, corners: Seq<Spot>, n: nat) -> nat
    decreases n,
{
    if n == 0 {
        0
    } else {
        let i = n - 1;
        let j = if i == 0 {
            corners.len() - 1
        } else {
            i - 1
        };
        crossings(p, corners, i as nat) + if crosses(p, corners[i], corners[j]) {
            1nat
        } else {
            0nat
        }
    }
}

/// `p` lies inside a polygon: a line from it crosses the edge an odd number of
/// times.
pub open spec fn spec_inside(p: Spot, corners: Seq<Spot>) -> bool {
    corners.len() >= LEAST_CORNERS && crossings(p, corners, corners.len()) % 2 == 1
}

fn does_cross(p: Spot, a: Spot, b: Spot) -> (r: bool)
    ensures
        r == crosses(p, a, b),
{
    proof {
        reveal(crosses);
    }
    if p.y.lt(a.y) != p.y.lt(b.y) {
        let rise = p.y.minus(a.y).times(b.x.minus(a.x)).over(b.y.minus(a.y));
        p.x.lt(a.x.plus(rise))
    } else {
        false
    }
}

/// Whether `p` lies inside the polygon `corners` (in order, either way round;
/// the last joins the first). Crossing count: a line from `p` crosses the edge
/// of the polygon an odd number of times from inside.
pub fn inside(p: Spot, corners: &[Spot]) -> (r: bool)
    ensures
        r == spec_inside(p, corners@),
{
    if corners.len() < LEAST_CORNERS {
        return false;
    }
    let mut inside = false;
    let mut j: usize = corners.len() - 1;
    let mut i: usize = 0;
    while i < corners.len()
        invariant
            i <= corners.len(),
            corners.len() >= LEAST_CORNERS,
            j < corners.len(),
            i < corners.len() ==> j == if i == 0 {
                corners.len() - 1
            } else {
                i - 1
            },
            inside == (crossings(p, corners@, i as nat) % 2 == 1),
        decreases corners.len() - i,
    {
        if does_cross(p, corners[i], corners[j]) {
            inside = !inside;
        }
        j = i;
        i = i + 1;
    }
    inside
}

/// The corners from the `k`th on, and then those before it.
pub open spec fn from_corner(corners: Seq<Spot>, k: int) -> Seq<Spot> {
    corners.skip(k) + corners.take(k)
}

/// The edge that ends at the first corner, as a count of crossings.
spec fn closing(p: Spot, corners: Seq<Spot>) -> nat {
    if crosses(p, corners[0], corners[corners.len() - 1]) {
        1
    } else {
        0
    }
}

proof fn lemma_one_corner_on(p: Spot, corners: Seq<Spot>, m: nat)
    requires
        corners.len() >= 2,
        m < corners.len(),
    ensures
        crossings(p, from_corner(corners, 1), m) + closing(p, corners) == crossings(
            p,
            corners,
            m + 1,
        ),
    decreases m,
{
    let turned = from_corner(corners, 1);
    if m == 0 {
        assert(crossings(p, corners, 0) == 0);
    } else {
        lemma_one_corner_on(p, corners, (m - 1) as nat);
        assert(turned[m - 1] == corners[m as int]);
        if m == 1 {
            assert(turned[turned.len() - 1] == corners[0]);
        } else {
            assert(turned[m - 2] == corners[m - 1]);
        }
    }
}

/// An outline may be given from any of its corners: where it is begun makes no
/// difference to what is inside it.
pub proof fn law_an_outline_begins_anywhere(p: Spot, corners: Seq<Spot>, k: int)
    requires
        0 <= k <= corners.len(),
    ensures
        spec_inside(p, from_corner(corners, k)) == spec_inside(p, corners),
    decreases k,
{
    if k == 0 {
        assert(from_corner(corners, 0) =~= corners);
    } else {
        law_an_outline_begins_anywhere(p, corners, k - 1);
        let before = from_corner(corners, k - 1);
        let turned = from_corner(corners, k);
        assert(turned =~= from_corner(before, 1));
        if corners.len() >= LEAST_CORNERS {
            let n = (corners.len() - 1) as nat;
            lemma_one_corner_on(p, before, n);
            assert(turned[n as int] == before[0]);
            assert(turned[n - 1] == before[n as int]);
        }
    }
}

/// `p` lies within rounding of the edge between two corners: it is level with the
/// edge, and lies left of where the two meet reckoned from one end and not
/// reckoned from the other.
pub open spec fn in_doubt(p: Spot, a: Spot, b: Spot) -> bool {
    p.y.below(a.y) != p.y.below(b.y) && p.x.below(meets(p, a, b)) != p.x.below(meets(p, b, a))
}

/// How many of the edges that end at the first `n` corners `p` lies within
/// rounding of.
pub open spec fn edges_in_doubt(p: Spot, corners: Seq<Spot>, n: nat) -> nat
    decreases n,
{
    if n == 0 {
        0
    } else {
        let i = n - 1;
        let j = if i == 0 {
            corners.len() - 1
        } else {
            i - 1
        };
        edges_in_doubt(p, corners, i as nat) + if in_doubt(p, corners[i], corners[j]) {
            1nat
        } else {
            0nat
        }
    }
}

/// How many of the edges that end at the first `n` corners are crossed, each
/// reckoned from its other end.
spec fn crossings_back(p: Spot, corners: Seq<Spot>, n: nat) -> nat
    decreases n,
{
    if n == 0 {
        0
    } else {
        let i = n - 1;
        let j = if i == 0 {
            corners.len() - 1
        } else {
            i - 1
        };
        crossings_back(p, corners, i as nat) + if crosses(p, corners[j], corners[i]) {
            1nat
        } else {
            0nat
        }
    }
}

proof fn lemma_in_doubt(p: Spot, corners: Seq<Spot>, n: nat)
    ensures
        (crossings(p, corners, n) % 2 == crossings_back(p, corners, n) % 2) <==> edges_in_doubt(
            p,
            corners,
            n,
        ) % 2 == 0,
    decreases n,
{
    if n > 0 {
        reveal(crosses);
        lemma_in_doubt(p, corners, (n - 1) as nat);
    }
}

proof fn lemma_turned_round(p: Spot, corners: Seq<Spot>, m: nat)
    requires
        corners.len() >= 2,
        1 <= m <= corners.len(),
    ensures
        crossings(p, corners.reverse(), m) + crossings_back(
            p,
            corners,
            (corners.len() - m + 1) as nat,
        ) == crossings_back(p, corners, 1) + crossings_back(p, corners, corners.len()),
    decreases m,
{
    let n = corners.len();
    let round = corners.reverse();
    if m == 1 {
        assert(crossings(p, round, 0) == 0);
        assert(crossings_back(p, corners, 0) == 0);
        assert(round[0] == corners[n - 1]);
        assert(round[n - 1] == corners[0]);
    } else {
        lemma_turned_round(p, corners, (m - 1) as nat);
        assert(round[m - 1] == corners[n - m]);
        assert(round[m - 2] == corners[n - m + 1]);
    }
}

/// An outline may be given either way round: where `p` lies within rounding of
/// none of its edges, the way round makes no difference to whether it is inside.
/// It makes one just where `p` lies within rounding of an odd number of them.
pub proof fn law_an_outline_goes_either_way_round(p: Spot, corners: Seq<Spot>)
    ensures
        edges_in_doubt(p, corners, corners.len()) == 0 ==> spec_inside(p, corners.reverse())
            == spec_inside(p, corners),
        corners.len() >= LEAST_CORNERS ==> (spec_inside(p, corners.reverse()) == spec_inside(
            p,
            corners,
        ) <==> edges_in_doubt(p, corners, corners.len()) % 2 == 0),
{
    if corners.len() >= LEAST_CORNERS {
        lemma_in_doubt(p, corners, corners.len());
        lemma_turned_round(p, corners, corners.len());
    }
}

/// The room a cell id stands for.
pub open spec fn block_of(cell: u32) -> u32 {
    cell & 0xffff_0000
}

impl HuntArea {
    pub open spec fn spec_contains(self, at: Point, cell: u32, underground: bool) -> bool {
        match self.shape {
            Shape::Outline { points } => !underground && spec_inside(at.spec_flat(), points@),
            Shape::Dungeon { landblock, rooms } => {
                &&& block_of(cell) == block_of(landblock)
                &&& cell & 0xffff >= 0x100
                &&& rooms@.len() == 0 || rooms@.contains(cell)
            },
        }
    }

    /// Whether something at world position `at`, in cell `cell`, is inside the
    /// area. `underground` says whether that cell is a dungeon's, which the cell
    /// id alone cannot: a dungeon underneath an outline is somewhere else.
    pub fn contains(&self, at: Point, cell: u32, underground: bool) -> (r: bool)
        ensures
            r == self.spec_contains(at, cell, underground),
    {
        match &self.shape {
            Shape::Outline { points } => !underground && inside(at.flat(), points.as_slice()),
            Shape::Dungeon { landblock, rooms } => {
                cell & 0xffff_0000 == *landblock & 0xffff_0000 && cell & 0xffff >= 0x100 && (
                rooms.len() == 0 || holds(rooms, cell))
            },
        }
    }

    pub open spec fn spec_usable(self) -> bool {
        match self.shape {
            Shape::Outline { points } => points@.len() >= LEAST_CORNERS,
            Shape::Dungeon { .. } => true,
        }
    }

    /// Whether the shape is complete enough to save: an outline needs at least
    /// [`LEAST_CORNERS`] corners.
    pub fn usable(&self) -> (r: bool)
        ensures
            r == self.spec_usable(),
    {
        match &self.shape {
            Shape::Outline { points } => points.len() >= LEAST_CORNERS,
            Shape::Dungeon { .. } => true,
        }
    }

    pub open spec fn spec_describe(self) -> Seq<char> {
        match self.shape {
            Shape::Outline { points } => "outline, "@ + counted(points@.len()) + " corners"@,
            Shape::Dungeon { landblock, rooms } => {
                let place = "dungeon "@ + ("0x"@ + four_hex((landblock / 0x1_0000) as int));
                if rooms@.len() == 0 {
                    place + ", all of it"@
                } else {
                    place + ", "@ + counted(rooms@.len()) + " rooms"@
                }
            },
        }
    }

    /// A few words for a list: "outline, 5 corners", "dungeon 0x01f6, 3 rooms",
    /// "dungeon 0x01f6, all of it".
    pub fn describe(&self) -> (r: String)
        ensures
            r@ == self.spec_describe(),
    {
        match &self.shape {
            Shape::Outline { points } => {
                let n = count(points.len() as u128);
                cat3("outline, ", n.as_str(), " corners")
            },
            Shape::Dungeon { landblock, rooms } => {
                let block: u16 = (*landblock / 0x1_0000) as u16;
                let hex = hex4(block);
                let id = cat2("0x", hex.as_str());
                let place = cat2("dungeon ", id.as_str());
                if rooms.len() == 0 {
                    cat2(place.as_str(), ", all of it")
                } else {
                    let n = count(rooms.len() as u128);
                    cat4(place.as_str(), ", ", n.as_str(), " rooms")
                }
            },
        }
    }
}

fn holds(rooms: &Vec<u32>, cell: u32) -> (r: bool)
    ensures
        r == rooms@.contains(cell),
{
    let mut i: usize = 0;
    while i < rooms.len()
        invariant
            i <= rooms.len(),
            forall|k: int| 0 <= k < i ==> rooms@[k] != cell,
        decreases rooms.len() - i,
    {
        if rooms[i] == cell {
            return true;
        }
        i = i + 1;
    }
    false
}

/// The corners of an outline area, `None` for a dungeon.
pub fn corners(area: &HuntArea) -> (r: Option<&Vec<Spot>>)
    ensures
        match area.shape {
            Shape::Outline { points } => r is Some && *r->0 == points,
            Shape::Dungeon { .. } => r is None,
        },
{
    match &area.shape {
        Shape::Outline { points } => Some(points),
        Shape::Dungeon { .. } => None,
    }
}

/// The place so much of the way from one to another.
#[verifier::opaque]
pub open spec fn between(a: Spot, b: Spot, t: Single) -> Spot {
    let s = (Single { bits: ALL_THE_WAY }).sum(t.opposite());
    Spot {
        x: a.x.product(s).sum(b.x.product(t)),
        y: a.y.product(s).sum(b.y.product(t)),
    }
}

fn lerp(a: Spot, b: Spot, t: Single) -> (r: Spot)
    ensures
        r == between(a, b, t),
{
    proof {
        reveal(between);
    }
    let s = (Single { bits: ALL_THE_WAY }).minus(t);
    Spot { x: a.x.times(s).plus(b.x.times(t)), y: a.y.times(s).plus(b.y.times(t)) }
}

/// The first `n` corners added up.
pub open spec fn corner_sum(corners: Seq<Spot>, n: nat) -> Spot
    decreases n,
{
    if n == 0 {
        Spot { x: Single { bits: 0 }, y: Single { bits: 0 } }
    } else {
        let s = corner_sum(corners, (n - 1) as nat);
        Spot { x: s.x.sum(corners[n - 1].x), y: s.y.sum(corners[n - 1].y) }
    }
}

/// The middle of some corners.
pub open spec fn middle_of(corners: Seq<Spot>) -> Spot {
    let s = corner_sum(corners, corners.len());
    let n = Single::whole(
        if corners.len() == 0 {
            1
        } else {
            corners.len() as int
        },
    );
    Spot { x: s.x.quotient(n), y: s.y.quotient(n) }
}

/// The first place inside, of those a quarter, half and three quarters of the
/// way from each corner from `i` on to the middle.
pub open spec fn first_inside(corners: Seq<Spot>, middle: Spot, i: int) -> Option<Spot>
    decreases corners.len() - i,
{
    if i >= corners.len() {
        None
    } else {
        let a = between(corners[i], middle, Single { bits: QUARTER });
        let b = between(corners[i], middle, Single { bits: HALFWAY });
        let c = between(corners[i], middle, Single { bits: THREE_QUARTERS });
        if spec_inside(a, corners) {
            Some(a)
        } else if spec_inside(b, corners) {
            Some(b)
        } else if spec_inside(c, corners) {
            Some(c)
        } else {
            first_inside(corners, middle, i + 1)
        }
    }
}

/// Where to walk to get inside an outline.
pub open spec fn spec_way_in(corners: Seq<Spot>) -> Spot {
    let middle = middle_of(corners);
    if spec_inside(middle, corners) {
        middle
    } else {
        match first_inside(corners, middle, 0) {
            Some(p) => p,
            None => middle,
        }
    }
}

/// Where to walk to get inside an outline: its middle when that is inside it,
/// and otherwise somewhere that is (an L or a crescent can have its middle
/// outside).
pub fn way_in(corners: &[Spot]) -> (r: Spot)
    ensures
        r == spec_way_in(corners@),
{
    let mut x = Single { bits: 0 };
    let mut y = Single { bits: 0 };
    let mut i: usize = 0;
    while i < corners.len()
        invariant
            i <= corners.len(),
            (Spot { x, y }) == corner_sum(corners@, i as nat),
        decreases corners.len() - i,
    {
        x = x.plus(corners[i].x);
        y = y.plus(corners[i].y);
        i = i + 1;
    }
    let n = if corners.len() == 0 {
        Single::from_u64(1)
    } else {
        Single::from_u64(corners.len() as u64)
    };
    let middle = Spot { x: x.over(n), y: y.over(n) };
    if inside(middle, corners) {
        return middle;
    }
    i = 0;
    while i < corners.len()
        invariant
            i <= corners.len(),
            middle == middle_of(corners@),
            !spec_inside(middle, corners@),
            first_inside(corners@, middle, 0) == first_inside(corners@, middle, i as int),
        decreases corners.len() - i,
    {
        let a = lerp(corners[i], middle, Single { bits: QUARTER });
        if inside(a, corners) {
            return a;
        }
        let b = lerp(corners[i], middle, Single { bits: HALFWAY });
        if inside(b, corners) {
            return b;
        }
        let c = lerp(corners[i], middle, Single { bits: THREE_QUARTERS });
        if inside(c, corners) {
            return c;
        }
        i = i + 1;
    }
    middle
}

/// The `n`th place to walk to while looking about an outline.
pub open spec fn spec_patrol_point(corners: Seq<Spot>, n: u32) -> Spot {
    let middle = spec_way_in(corners);
    if corners.len() == 0 {
        middle
    } else {
        let toward = corners[n as int % corners.len() as int];
        let a = between(middle, toward, Single { bits: MOST_OF_THE_WAY });
        let b = between(middle, toward, Single { bits: HALFWAY });
        let c = between(middle, toward, Single { bits: SOME_OF_THE_WAY });
        if spec_inside(a, corners) {
            a
        } else if spec_inside(b, corners) {
            b
        } else if spec_inside(c, corners) {
            c
        } else {
            middle
        }
    }
}

/// The `n`th place to walk to while looking about an outline for something to
/// fight: towards each corner in turn, well inside it.
pub fn patrol_point(corners: &[Spot], n: u32) -> (r: Spot)
    ensures
        r == spec_patrol_point(corners@, n),
        corners@.len() > 0 ==> heads_for(
            corners@,
            spec_way_in(corners@),
            corners@[n as int % corners@.len() as int],
            r,
        ),
{
    proof {
        if corners@.len() > 0 {
            law_a_patrol_heads_for_its_corner(corners@, n);
        }
    }
    let middle = way_in(corners);
    if corners.len() == 0 {
        return middle;
    }
    let k: usize = n as usize % corners.len();
    let toward = corners[k];
    let a = lerp(middle, toward, Single { bits: MOST_OF_THE_WAY });
    if inside(a, corners) {
        return a;
    }
    let b = lerp(middle, toward, Single { bits: HALFWAY });
    if inside(b, corners) {
        return b;
    }
    let c = lerp(middle, toward, Single { bits: SOME_OF_THE_WAY });
    if inside(c, corners) {
        return c;
    }
    middle
}

proof fn lemma_first_inside(corners: Seq<Spot>, middle: Spot, i: int)
    requires
        0 <= i,
    ensures
        first_inside(corners, middle, i) is Some ==> spec_inside(
            first_inside(corners, middle, i)->0,
            corners,
        ),
    decreases corners.len() - i,
{
    if i < corners.len() {
        lemma_first_inside(corners, middle, i + 1);
    }
}

/// The way into an outline is inside it, unless neither its middle nor any of
/// the places tried between its corners and its middle is.
pub proof fn law_the_way_in_is_inside(corners: Seq<Spot>)
    requires
        spec_inside(middle_of(corners), corners) || first_inside(
            corners,
            middle_of(corners),
            0,
        ) is Some,
    ensures
        spec_inside(spec_way_in(corners), corners),
{
    lemma_first_inside(corners, middle_of(corners), 0);
}

/// Patrolling keeps inside, whichever corner it heads for, wherever the way in
/// is inside.
pub proof fn law_patrolling_keeps_inside(corners: Seq<Spot>, n: u32)
    requires
        spec_inside(spec_way_in(corners), corners),
    ensures
        spec_inside(spec_patrol_point(corners, n), corners),
{
}

/// A portal: what it is called, whether it works, whether its mouth stands out
/// in the open, the cell it comes out in, and where its mouth is.
#[derive(Clone, Debug)]
pub struct Portal {
    pub name: String,
    pub works: bool,
    pub outdoors: bool,
    pub to_cell: u32,
    pub mouth: Spot,
}

pub open spec fn leads_into(p: Portal, landblock: u32) -> bool {
    p.works && p.outdoors && block_of(p.to_cell) == block_of(landblock)
}

/// Which of the first `n` portals into a dungeon is nearest, the first of
/// several as near.
pub open spec fn nearest_entrance(portals: Seq<Portal>, landblock: u32, from: Spot, n: nat) -> Option<
    int,
>
    decreases n,
{
    if n == 0 {
        None
    } else {
        let i = n - 1;
        let best = nearest_entrance(portals, landblock, from, i as nat);
        if !leads_into(portals[i], landblock) {
            best
        } else if best is Some && portals[best->0].mouth.spec_away(from).place()
            <= portals[i].mouth.spec_away(from).place() {
            best
        } else {
            Some(i)
        }
    }
}

fn entrance_at(portals: &[Portal], landblock: u32, from: Spot) -> (r: Option<usize>)
    ensures
        match r {
            Some(k) => nearest_entrance(portals@, landblock, from, portals@.len()) == Some(
                k as int,
            ) && k < portals@.len(),
            None => nearest_entrance(portals@, landblock, from, portals@.len()) is None,
        },
{
    let mut best: Option<usize> = None;
    let mut i: usize = 0;
    while i < portals.len()
        invariant
            i <= portals.len(),
            match best {
                Some(k) => nearest_entrance(portals@, landblock, from, i as nat) == Some(k as int)
                    && k < i,
                None => nearest_entrance(portals@, landblock, from, i as nat) is None,
            },
        decreases portals.len() - i,
    {
        let p = &portals[i];
        if p.works && p.outdoors && p.to_cell & 0xffff_0000 == landblock & 0xffff_0000 {
            match best {
                Some(k) => {
                    if p.mouth.away(from).stands_before(portals[k].mouth.away(from)) {
                        best = Some(i);
                    }
                },
                None => {
                    best = Some(i);
                },
            }
        }
        i = i + 1;
    }
    best
}

/// The portal into the dungeon of `landblock` nearest `from`: one that works,
/// stands out in the open, and comes out in that dungeon.
pub fn entrance(portals: &[Portal], landblock: u32, from: Spot) -> (r: Option<&Portal>)
    ensures
        match r {
            Some(p) => {
                let i = nearest_entrance(portals@, landblock, from, portals@.len());
                i is Some && *p == portals@[i->0]
            },
            None => nearest_entrance(portals@, landblock, from, portals@.len()) is None,
        },
{
    match entrance_at(portals, landblock, from) {
        Some(k) => Some(&portals[k]),
        None => None,
    }
}

/// Something that may be fought: where it is and in which cell, if that is
/// known, and whether it has just swung at the character.
#[derive(Clone, Copy, Debug)]
pub struct Foe {
    pub at: Option<Point>,
    pub cell: u32,
    pub hit_lately: bool,
}

pub open spec fn spec_area_allows(
    area: Option<HuntArea>,
    foe: Foe,
    me: Option<Point>,
    underground: bool,
) -> bool {
    match (area, foe.at) {
        (None, _) => true,
        (Some(_), None) => false,
        (Some(a), Some(at)) => a.spec_contains(at, foe.cell, underground) || (foe.hit_lately && me
            is Some && me->0.spec_away(at).at_most(Single { bits: DEFEND_REACH })),
    }
}

/// Whether something may be fought under the hunting area: it stands inside the
/// area, or it is what has just swung at the character and is near. With no
/// area, anything may.
pub fn area_allows(area: &Option<HuntArea>, foe: &Foe, me: Option<Point>, underground: bool) -> (r:
    bool)
    ensures
        r == spec_area_allows(*area, *foe, me, underground),
{
    match area {
        None => true,
        Some(a) => match foe.at {
            None => false,
            Some(at) => {
                if a.contains(at, foe.cell, underground) {
                    return true;
                }
                match me {
                    Some(here) => foe.hit_lately && here.away(at).le(
                        Single { bits: DEFEND_REACH },
                    ),
                    None => false,
                }
            },
        },
    }
}

/// Whether something may still be fought under the area; something no longer
/// known may not.
pub fn area_allows_guid(
    area: &Option<HuntArea>,
    foe: Option<&Foe>,
    me: Option<Point>,
    underground: bool,
) -> (r: bool)
    ensures
        r == (foe is Some && spec_area_allows(*area, *foe->0, me, underground)),
{
    match foe {
        Some(f) => area_allows(area, f, me, underground),
        None => false,
    }
}

/// What keeping to the area sees.
#[derive(Clone, Copy, Debug)]
pub struct KeepLook {
    pub fight_enabled: bool,
    /// A run to town is under way, which leaves the area on purpose.
    pub on_a_run: bool,
    /// Something is hitting the character, or it has taken something on.
    pub fighting: bool,
    /// Where the character stands, and in which cell.
    pub me: Option<Point>,
    pub cell: u32,
    pub underground: bool,
    /// A journey or a visit is under way.
    pub under_way: bool,
}

/// What keeping to the area comes to.
#[derive(Clone, Debug)]
pub enum Keep {
    /// There is nothing to keep to, or it is kept to already.
    Free,
    /// It is on its way back.
    OnTheWay,
    /// Walk back into the outline.
    Walk { to: Point, within: Single },
    /// Go through the portal of this index.
    Visit(usize),
}

/// The character is outside its area, free to go back, and not on its way yet.
pub open spec fn strayed(area: HuntArea, look: KeepLook) -> bool {
    &&& look.fight_enabled
    &&& !look.on_a_run
    &&& !look.fighting
    &&& look.me is Some
    &&& !area.spec_contains(look.me->0, look.cell, look.underground)
}

/// What keeping to the area comes to, and what is said of it.
pub open spec fn kept(area: Option<HuntArea>, look: KeepLook, portals: Seq<Portal>) -> (
    Keep,
    Seq<Deed>,
) {
    match area {
        None => (Keep::Free, seq![]),
        Some(a) => if !strayed(a, look) {
            (Keep::Free, seq![])
        } else if look.under_way {
            (Keep::OnTheWay, seq![])
        } else {
            match a.shape {
                Shape::Outline { points } => if points@.len() < LEAST_CORNERS {
                    (Keep::Free, seq![])
                } else {
                    let goal = spec_way_in(points@);
                    (
                        Keep::Walk {
                            to: Point { x: goal.x, y: goal.y, z: look.me->0.z },
                            within: Single { bits: BACK_IN },
                        },
                        seq![],
                    )
                },
                Shape::Dungeon { landblock, .. } => if look.underground && block_of(look.cell)
                    == block_of(landblock) {
                    (Keep::Free, seq![])
                } else {
                    match nearest_entrance(
                        portals,
                        landblock,
                        look.me->0.spec_flat(),
                        portals.len(),
                    ) {
                        Some(i) => (Keep::Visit(i as usize), seq![]),
                        None => (
                            Keep::Free,
                            seq![Deed::Note("no portal into "@ + a.name@ + " is known"@)],
                        ),
                    }
                },
            }
        },
    }
}

/// Keep to the hunting area: outside it, and not in a fight or on a run, go
/// back. Into an outline on foot; to a dungeon through the portal into it. In
/// the dungeon, outside the rooms picked, the explorer takes it from there.
pub fn autoplay_keep_to_area(
    area: &Option<HuntArea>,
    look: &KeepLook,
    portals: &[Portal],
    out: &mut Vec<Order>,
) -> (r: Keep)
    ensures
        r == kept(*area, *look, portals@).0,
        deeds(final(out)@) == deeds(old(out)@) + kept(*area, *look, portals@).1,
{
    let ghost k = kept(*area, *look, portals@);
    let a = match area {
        Some(a) => a,
        None => {
            assert(deeds(out@) =~= deeds(old(out)@) + k.1);
            return Keep::Free;
        },
    };
    let me = match look.me {
        Some(me) => me,
        None => {
            assert(deeds(out@) =~= deeds(old(out)@) + k.1);
            return Keep::Free;
        },
    };
    if !look.fight_enabled || look.on_a_run || look.fighting || a.contains(
        me,
        look.cell,
        look.underground,
    ) {
        assert(deeds(out@) =~= deeds(old(out)@) + k.1);
        return Keep::Free;
    }
    if look.under_way {
        assert(deeds(out@) =~= deeds(old(out)@) + k.1);
        return Keep::OnTheWay;
    }
    match &a.shape {
        Shape::Outline { points } => {
            assert(deeds(out@) =~= deeds(old(out)@) + k.1);
            if points.len() < LEAST_CORNERS {
                return Keep::Free;
            }
            let goal = way_in(points.as_slice());
            Keep::Walk {
                to: Point { x: goal.x, y: goal.y, z: me.z },
                within: Single { bits: BACK_IN },
            }
        },
        Shape::Dungeon { landblock, .. } => {
            if look.underground && look.cell & 0xffff_0000 == *landblock & 0xffff_0000 {
                assert(deeds(out@) =~= deeds(old(out)@) + k.1);
                return Keep::Free;
            }
            match entrance_at(portals, *landblock, me.flat()) {
                Some(i) => {
                    assert(deeds(out@) =~= deeds(old(out)@) + k.1);
                    Keep::Visit(i)
                },
                None => {
                    note(out, cat3("no portal into ", a.name.as_str(), " is known"));
                    assert(deeds(out@) =~= deeds(old(out)@) + k.1);
                    Keep::Free
                },
            }
        },
    }
}

/// What is said of the walk back into an outline, and whether it was begun.
pub fn walked_back(name: &str, acting: bool, out: &mut Vec<Order>) -> (r: bool)
    ensures
        r == acting,
        deeds(final(out)@) == deeds(old(out)@).push(
            if acting {
                Deed::Say(Doing::Traveling, "back to "@ + name@)
            } else {
                Deed::Note("no way back to "@ + name@ + " from here"@)
            },
        ),
{
    if acting {
        say(out, Doing::Traveling, cat2("back to ", name));
    } else {
        note(out, cat3("no way back to ", name, " from here"));
    }
    acting
}

/// What is said of the visit to a portal into a dungeon, and whether it was
/// begun.
pub fn visited(name: &str, portal: &str, begun: bool, out: &mut Vec<Order>) -> (r: bool)
    ensures
        r == begun,
        deeds(final(out)@) == deeds(old(out)@).push(
            if begun {
                Deed::Say(Doing::Traveling, "on the way into "@ + name@ + " ("@ + portal@ + ")"@)
            } else {
                Deed::Note("no way to the portal into "@ + name@)
            },
        ),
{
    if begun {
        say(out, Doing::Traveling, cat5("on the way into ", name, " (", portal, ")"));
    } else {
        note(out, cat2("no way to the portal into ", name));
    }
    begun
}

/// A character in a fight or on a run to town is never walked back to its area.
pub proof fn law_a_fight_is_not_left_for_the_area(
    area: Option<HuntArea>,
    look: KeepLook,
    portals: Seq<Portal>,
)
    requires
        look.fighting || look.on_a_run,
    ensures
        kept(area, look, portals) == (Keep::Free, Seq::<Deed>::empty()),
{
}

} // verus!
