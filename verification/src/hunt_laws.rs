//! What holds of where a character hunts.

use crate::hunt::{
    between, block_of, corner_sum, crosses, crossings, first_inside, kept, leads_into, meets,
    middle_of, nearest_entrance, spec_area_allows, spec_inside, spec_patrol_point, spec_way_in, Foe,
    HuntArea, Keep, KeepLook, Portal, Shape,
};
use crate::orders::Deed;
use crate::place::{Point, Spot};
use crate::single::{
    digits, lemma_exact, lemma_rounding_keeps_order, lemma_some_nearest, lemma_units_increase,
    scale, units, Single,
};
use crate::single_laws::{
    law_a_number_and_its_opposite, law_numbers_are_ordered_by_size, lemma_exact_over, lemma_nought,
};
use vstd::arithmetic::div_mod::{lemma_fundamental_div_mod_converse, lemma_mod_bound};
use vstd::arithmetic::power2::{lemma_pow2_pos, pow2};
use vstd::prelude::*;

verus! {

/// 0.25, 0.3, 0.5, 0.7 and 0.75 of the way.
pub open spec fn part(hundredths: int) -> Single {
    Single {
        bits: if hundredths == 25 {
            0x3e80_0000
        } else if hundredths == 30 {
            0x3e99_999a
        } else if hundredths == 50 {
            0x3f00_0000
        } else if hundredths == 70 {
            0x3f33_3333
        } else {
            0x3f40_0000
        },
    }
}

/// One coordinate so much of the way from one to another.
pub open spec fn part_way(a: Single, b: Single, t: Single) -> Single {
    a.product((Single { bits: 0x3f80_0000 }).sum(t.opposite())).sum(b.product(t))
}

/// A place lies on the line from one place to another, so many hundredths of the
/// way along.
#[verifier::opaque]
pub open spec fn lies_at(p: Spot, from: Spot, to: Spot, hundredths: int) -> bool {
    p.x == part_way(from.x, to.x, part(hundredths)) && p.y == part_way(
        from.y,
        to.y,
        part(hundredths),
    )
}

/// A place lies so far along the line from one place to another, and inside some
/// corners.
pub open spec fn lies_inside_at(
    corners: Seq<Spot>,
    p: Spot,
    from: Spot,
    to: Spot,
    hundredths: int,
) -> bool {
    lies_at(p, from, to, hundredths) && spec_inside(p, corners)
}

/// No place so far along the line lies inside some corners.
pub open spec fn none_inside_at(
    corners: Seq<Spot>,
    from: Spot,
    to: Spot,
    hundredths: int,
) -> bool {
    forall|p: Spot| #[trigger] lies_at(p, from, to, hundredths) ==> !spec_inside(p, corners)
}

/// A patrol from the way in heads for a corner: it goes seven tenths of the way
/// there, or half of it or three tenths where that is not inside, and stays at the
/// way in where none of them is.
#[verifier::opaque]
pub open spec fn heads_for(corners: Seq<Spot>, way_in: Spot, corner: Spot, p: Spot) -> bool {
    ||| lies_inside_at(corners, p, way_in, corner, 70)
    ||| none_inside_at(corners, way_in, corner, 70) && lies_inside_at(
        corners,
        p,
        way_in,
        corner,
        50,
    )
    ||| none_inside_at(corners, way_in, corner, 70) && none_inside_at(corners, way_in, corner, 50)
        && lies_inside_at(corners, p, way_in, corner, 30)
    ||| none_inside_at(corners, way_in, corner, 70) && none_inside_at(corners, way_in, corner, 50)
        && none_inside_at(corners, way_in, corner, 30) && p == way_in
}

proof fn lemma_between(a: Spot, b: Spot, hundredths: int)
    ensures
        lies_at(between(a, b, part(hundredths)), a, b, hundredths),
        forall|p: Spot|
            #[trigger] lies_at(p, a, b, hundredths) ==> p == between(a, b, part(hundredths)),
{
    reveal(between);
    reveal(lies_at);
}

/// A patrol goes to the corners in turn: its point of any number heads from the
/// way in for the corner of that number, counted round and round.
pub proof fn law_a_patrol_heads_for_its_corner(corners: Seq<Spot>, n: u32)
    requires
        corners.len() > 0,
    ensures
        heads_for(
            corners,
            spec_way_in(corners),
            corners[n as int % corners.len() as int],
            spec_patrol_point(corners, n),
        ),
{
    reveal(heads_for);
    let middle = spec_way_in(corners);
    let toward = corners[n as int % corners.len() as int];
    lemma_between(middle, toward, 70);
    lemma_between(middle, toward, 50);
    lemma_between(middle, toward, 30);
}

/// As many points of a patrol in a row as there are corners head for every corner,
/// each once.
pub proof fn law_a_patrol_goes_to_every_corner(corners: Seq<Spot>, start: u32, corner: int)
    requires
        0 <= corner < corners.len(),
        start + corners.len() <= u32::MAX + 1,
    ensures
        exists|n: u32|
            start <= n < start + corners.len() && n as int % corners.len() as int == corner
                && heads_for(
                corners,
                spec_way_in(corners),
                corners[corner],
                #[trigger] spec_patrol_point(corners, n),
            ),
        forall|n: u32, m: u32|
            start <= n < start + corners.len() && start <= m < start + corners.len() && #[trigger] (
            n as int % corners.len() as int) == #[trigger] (m as int % corners.len() as int) ==> n
                == m,
{
    let len = corners.len() as int;
    let at = start as int % len;
    lemma_mod_bound(start as int, len);
    vstd::arithmetic::div_mod::lemma_fundamental_div_mod(start as int, len);
    let q = start as int / len;
    let n: u32 = if corner >= at {
        (start + (corner - at)) as u32
    } else {
        (start + (corner - at) + len) as u32
    };
    if corner >= at {
        assert(n == len * q + corner);
        assert(len * q == q * len) by (nonlinear_arith);
        lemma_fundamental_div_mod_converse(n as int, len, q, corner);
    } else {
        assert(n == len * q + len + corner);
        assert(len * q + len == (q + 1) * len) by (nonlinear_arith);
        lemma_fundamental_div_mod_converse(n as int, len, q + 1, corner);
    }
    law_a_patrol_heads_for_its_corner(corners, n);
    assert forall|n: u32, m: u32|
        start <= n < start + corners.len() && start <= m < start + corners.len() && #[trigger] (
        n as int % corners.len() as int) == #[trigger] (m as int % corners.len() as int) implies n
        == m by {
        let (a, b) = (n as int, m as int);
        vstd::arithmetic::div_mod::lemma_fundamental_div_mod(a, len);
        vstd::arithmetic::div_mod::lemma_fundamental_div_mod(b, len);
        let (c, d) = (a / len, b / len);
        assert(a - b == len * (c - d)) by (nonlinear_arith)
            requires
                a == len * c + a % len,
                b == len * d + b % len,
                a % len == b % len,
        ;
        assert(c == d) by (nonlinear_arith)
            requires
                a - b == len * (c - d),
                -len < a - b < len,
                len > 0,
        ;
        assert(len * (c - d) == 0) by (nonlinear_arith)
            requires
                c == d,
        ;
    }
}

/// With no corners a patrol has nowhere to go but the way in.
pub proof fn law_a_patrol_of_nothing_stays(n: u32)
    ensures
        spec_patrol_point(seq![], n) == spec_way_in(seq![]),
{
}

/// None of the places tried on the way from a corner to the middle is inside.
pub open spec fn shut_at(corners: Seq<Spot>, middle: Spot, i: int) -> bool {
    &&& none_inside_at(corners, corners[i], middle, 25)
    &&& none_inside_at(corners, corners[i], middle, 50)
    &&& none_inside_at(corners, corners[i], middle, 75)
}

/// A place is the first inside of those a quarter, half and three quarters of the
/// way from a corner to the middle.
pub open spec fn opens_at(corners: Seq<Spot>, middle: Spot, i: int, p: Spot) -> bool {
    ||| lies_inside_at(corners, p, corners[i], middle, 25)
    ||| none_inside_at(corners, corners[i], middle, 25) && lies_inside_at(
        corners,
        p,
        corners[i],
        middle,
        50,
    )
    ||| none_inside_at(corners, corners[i], middle, 25) && none_inside_at(
        corners,
        corners[i],
        middle,
        50,
    ) && lies_inside_at(corners, p, corners[i], middle, 75)
}

proof fn lemma_tried(corners: Seq<Spot>, middle: Spot, i: int)
    requires
        0 <= i < corners.len(),
    ensures
        shut_at(corners, middle, i) ==> first_inside(corners, middle, i) == first_inside(
            corners,
            middle,
            i + 1,
        ),
        !shut_at(corners, middle, i) ==> first_inside(corners, middle, i) is Some && opens_at(
            corners,
            middle,
            i,
            first_inside(corners, middle, i)->0,
        ),
{
    lemma_between(corners[i], middle, 25);
    lemma_between(corners[i], middle, 50);
    lemma_between(corners[i], middle, 75);
}

proof fn lemma_first(corners: Seq<Spot>, middle: Spot, i: int)
    requires
        0 <= i <= corners.len(),
    ensures
        match first_inside(corners, middle, i) {
            Some(p) => exists|k: int|
                i <= k < corners.len() && #[trigger] opens_at(corners, middle, k, p) && forall|
                    j: int,
                |
                    i <= j < k ==> #[trigger] shut_at(corners, middle, j),
            None => forall|j: int|
                i <= j < corners.len() ==> #[trigger] shut_at(corners, middle, j),
        },
    decreases corners.len() - i,
{
    if i < corners.len() {
        lemma_tried(corners, middle, i);
        lemma_first(corners, middle, i + 1);
        match first_inside(corners, middle, i) {
            Some(p) => {
                if !shut_at(corners, middle, i) {
                    assert(opens_at(corners, middle, i, p));
                } else {
                    let k = choose|k: int|
                        i + 1 <= k < corners.len() && #[trigger] opens_at(corners, middle, k, p)
                            && forall|j: int|
                            i + 1 <= j < k ==> #[trigger] shut_at(corners, middle, j);
                    assert(opens_at(corners, middle, k, p));
                }
            },
            None => {},
        }
    }
}

/// The way into an outline is its middle where that is inside it; where it is not,
/// the first place inside on the way from a corner to the middle, the corners
/// taken in order; and the middle where there is none.
pub proof fn law_the_way_in_is_the_first_found(corners: Seq<Spot>)
    ensures
        ({
            let middle = middle_of(corners);
            let way = spec_way_in(corners);
            &&& spec_inside(middle, corners) ==> way == middle
            &&& !spec_inside(middle, corners) ==> {
                ||| exists|k: int|
                    0 <= k < corners.len() && #[trigger] opens_at(corners, middle, k, way)
                        && forall|j: int|
                        0 <= j < k ==> #[trigger] shut_at(corners, middle, j)
                ||| way == middle && forall|j: int|
                    0 <= j < corners.len() ==> #[trigger] shut_at(corners, middle, j)
            }
        }),
{
    let middle = middle_of(corners);
    let way = spec_way_in(corners);
    lemma_first(corners, middle, 0);
    if !spec_inside(middle, corners) {
        match first_inside(corners, middle, 0) {
            Some(p) => {
                let k = choose|k: int|
                    0 <= k < corners.len() && #[trigger] opens_at(corners, middle, k, p) && forall|
                        j: int,
                    |
                        0 <= j < k ==> #[trigger] shut_at(corners, middle, j);
                assert(way == p);
                assert(opens_at(corners, middle, k, way));
            },
            None => {
                assert(way == middle);
            },
        }
    }
}

proof fn lemma_corner_sum(corners: Seq<Spot>, n: nat)
    requires
        n <= corners.len(),
    ensures
        corner_sum(corners, n).x == corners.take(n as int).fold_left(
            Single { bits: 0 },
            |s: Single, c: Spot| s.sum(c.x),
        ),
        corner_sum(corners, n).y == corners.take(n as int).fold_left(
            Single { bits: 0 },
            |s: Single, c: Spot| s.sum(c.y),
        ),
    decreases n,
{
    reveal(Seq::fold_left);
    if n > 0 {
        lemma_corner_sum(corners, (n - 1) as nat);
        assert(corners.take(n as int).drop_last() =~= corners.take(n - 1));
    }
}

/// The middle of some corners is their coordinates added up, over how many there
/// are.
pub proof fn law_the_middle_is_the_mean(corners: Seq<Spot>)
    requires
        corners.len() > 0,
    ensures
        middle_of(corners).x == corners.fold_left(
            Single { bits: 0 },
            |s: Single, c: Spot| s.sum(c.x),
        ).quotient(Single::whole(corners.len() as int)),
        middle_of(corners).y == corners.fold_left(
            Single { bits: 0 },
            |s: Single, c: Spot| s.sum(c.y),
        ).quotient(Single::whole(corners.len() as int)),
{
    lemma_corner_sum(corners, corners.len());
    assert(corners.take(corners.len() as int) =~= corners);
}

proof fn lemma_clear(p: Spot, corners: Seq<Spot>, n: nat)
    requires
        n <= corners.len(),
        forall|i: int, j: int|
            0 <= i < corners.len() && 0 <= j < corners.len() ==> p.y.below(
                (#[trigger] corners[i]).y,
            ) == p.y.below((#[trigger] corners[j]).y),
    ensures
        crossings(p, corners, n) == 0,
    decreases n,
{
    if n > 0 {
        reveal(crosses);
        lemma_clear(p, corners, (n - 1) as nat);
        let i = n - 1;
        let j = if i == 0 {
            corners.len() - 1
        } else {
            i - 1
        };
        assert(p.y.below(corners[i].y) == p.y.below(corners[j].y));
    }
}

/// Nothing above all the corners of an outline is inside it, nor anything below
/// them all; and fewer than three corners hold nothing.
pub proof fn law_nothing_over_or_under_is_inside(p: Spot, corners: Seq<Spot>)
    requires
        corners.len() < 3 || (forall|i: int|
            0 <= i < corners.len() ==> p.y.below((#[trigger] corners[i]).y)) || (forall|i: int|
            0 <= i < corners.len() ==> !p.y.below((#[trigger] corners[i]).y)),
    ensures
        !spec_inside(p, corners),
{
    if corners.len() >= 3 {
        lemma_clear(p, corners, corners.len());
    }
}

/// Where a line level with `p` meets the edge between two corners, and whether
/// that is to the right of `p`: it lies on the edge as far over as `p` is up.
pub proof fn law_an_edge_is_crossed_beside_it(p: Spot, a: Spot, b: Spot)
    ensures
        crosses(p, a, b) <==> {
            let up = p.y.sum(a.y.opposite());
            let rise = b.y.sum(a.y.opposite());
            let run = b.x.sum(a.x.opposite());
            &&& p.y.below(a.y) <==> !p.y.below(b.y)
            &&& p.x.below(a.x.sum(up.product(run).quotient(rise)))
        },
{
    reveal(crosses);
}

/// A portal leads from out in the open into the dungeon of a landblock.
pub open spec fn way_down(p: Portal, landblock: u32) -> bool {
    p.works && p.outdoors && p.to_cell / 0x1_0000 == landblock / 0x1_0000
}

proof fn lemma_block(a: u32, b: u32)
    ensures
        block_of(a) == block_of(b) <==> a / 0x1_0000 == b / 0x1_0000,
{
    assert((a & 0xffff_0000) == (b & 0xffff_0000) <==> a / 0x1_0000 == b / 0x1_0000)
        by (bit_vector);
}

proof fn lemma_low(cell: u32)
    ensures
        (cell & 0xffff) == cell % 0x1_0000,
{
    assert((cell & 0xffff) == cell % 0x1_0000) by (bit_vector);
}

proof fn lemma_nearest(portals: Seq<Portal>, landblock: u32, from: Spot, n: nat)
    requires
        n <= portals.len(),
    ensures
        match nearest_entrance(portals, landblock, from, n) {
            Some(i) => 0 <= i < n && way_down(portals[i], landblock) && forall|k: int|
                0 <= k < n && way_down(#[trigger] portals[k], landblock)
                    ==> portals[i].mouth.spec_away(from).place() <= portals[k].mouth.spec_away(
                    from,
                ).place() && (k < i ==> portals[i].mouth.spec_away(from).place()
                    < portals[k].mouth.spec_away(from).place()),
            None => forall|k: int| 0 <= k < n ==> !way_down(#[trigger] portals[k], landblock),
        },
    decreases n,
{
    if n > 0 {
        lemma_nearest(portals, landblock, from, (n - 1) as nat);
        lemma_block(portals[n - 1].to_cell, landblock);
        assert(leads_into(portals[n - 1], landblock) == way_down(portals[n - 1], landblock));
    }
}

/// The entrance to a dungeon leads into it from out in the open, and no other that
/// does is nearer; of several as near it is the first. There is none only where no
/// portal leads in.
pub proof fn law_the_entrance_is_the_nearest(portals: Seq<Portal>, landblock: u32, from: Spot)
    ensures
        match nearest_entrance(portals, landblock, from, portals.len()) {
            Some(i) => {
                &&& 0 <= i < portals.len()
                &&& way_down(portals[i], landblock)
                &&& forall|k: int|
                    0 <= k < portals.len() && way_down(#[trigger] portals[k], landblock)
                        ==> portals[i].mouth.spec_away(from).place() <= portals[k].mouth.spec_away(
                        from,
                    ).place()
                &&& forall|k: int|
                    0 <= k < i && way_down(#[trigger] portals[k], landblock)
                        ==> portals[i].mouth.spec_away(from).place() < portals[k].mouth.spec_away(
                        from,
                    ).place()
            },
            None => forall|k: int|
                0 <= k < portals.len() ==> !way_down(#[trigger] portals[k], landblock),
        },
{
    lemma_nearest(portals, landblock, from, portals.len());
}

/// An outline holds what lies inside its corners out in the open, and nothing
/// underground. A dungeon holds its own rooms alone, all of them where none was
/// picked and only those picked where some were.
pub proof fn law_what_an_area_holds(area: HuntArea, at: Point, cell: u32, underground: bool)
    ensures
        match area.shape {
            Shape::Outline { points } => {
                &&& underground ==> !area.spec_contains(at, cell, underground)
                &&& !underground ==> area.spec_contains(at, cell, underground) == spec_inside(
                    Spot { x: at.x, y: at.y },
                    points@,
                )
            },
            Shape::Dungeon { landblock, rooms } => {
                &&& cell / 0x1_0000 != landblock / 0x1_0000 ==> !area.spec_contains(
                    at,
                    cell,
                    underground,
                )
                &&& cell % 0x1_0000 < 0x100 ==> !area.spec_contains(at, cell, underground)
                &&& cell / 0x1_0000 == landblock / 0x1_0000 && cell % 0x1_0000 >= 0x100
                    && rooms@.len() == 0 ==> area.spec_contains(at, cell, underground)
                &&& cell / 0x1_0000 == landblock / 0x1_0000 && cell % 0x1_0000 >= 0x100
                    && rooms@.len() > 0 ==> area.spec_contains(at, cell, underground)
                    == rooms@.contains(cell)
            },
        },
{
    match area.shape {
        Shape::Outline { points } => {},
        Shape::Dungeon { landblock, rooms } => {
            lemma_block(cell, landblock);
            lemma_low(cell);
        },
    }
}

/// An area can be used from three corners on, and a dungeon always.
pub proof fn law_an_outline_takes_three_corners(area: HuntArea)
    ensures
        match area.shape {
            Shape::Outline { points } => area.spec_usable() <==> points@.len() >= 3,
            Shape::Dungeon { .. } => area.spec_usable(),
        },
{
}

/// Without an area anything may be fought; with one, what is inside it, and
/// besides that only what has just hit the character and stands within 30 metres.
pub proof fn law_what_may_be_fought(
    area: Option<HuntArea>,
    foe: Foe,
    me: Option<Point>,
    underground: bool,
)
    ensures
        area is None ==> spec_area_allows(area, foe, me, underground),
        area is Some && foe.at is None ==> !spec_area_allows(area, foe, me, underground),
        area is Some && foe.at is Some && area->0.spec_contains(foe.at->0, foe.cell, underground)
            ==> spec_area_allows(area, foe, me, underground),
        area is Some && foe.at is Some && foe.hit_lately && me is Some && me->0.spec_away(
            foe.at->0,
        ).at_most(Single { bits: 0x41f0_0000 }) ==> spec_area_allows(area, foe, me, underground),
        area is Some && foe.at is Some && !area->0.spec_contains(foe.at->0, foe.cell, underground)
            && (!foe.hit_lately || me is None || !me->0.spec_away(foe.at->0).at_most(
            Single { bits: 0x41f0_0000 },
        )) ==> !spec_area_allows(area, foe, me, underground),
{
}

/// A character that has strayed out of its area with nothing in hand goes back: on
/// foot into an outline, to the way in and within 3 metres of it; through the
/// entrance nearest it into a dungeon.
pub proof fn law_a_stray_goes_back(area: HuntArea, look: KeepLook, portals: Seq<Portal>, keep: Keep)
    requires
        keep == kept(Some(area), look, portals).0,
        look.fight_enabled && !look.on_a_run && !look.fighting && look.me is Some,
        !area.spec_contains(look.me->0, look.cell, look.underground),
        portals.len() <= usize::MAX,
    ensures
        look.under_way ==> keep is OnTheWay,
        !look.under_way ==> match area.shape {
            Shape::Outline { points } => points@.len() >= 3 ==> keep == (Keep::Walk {
                to: Point {
                    x: spec_way_in(points@).x,
                    y: spec_way_in(points@).y,
                    z: look.me->0.z,
                },
                within: Single { bits: 0x4040_0000 },
            }),
            Shape::Dungeon { landblock, .. } => {
                let here = Spot { x: look.me->0.x, y: look.me->0.y };
                &&& look.underground && look.cell / 0x1_0000 == landblock / 0x1_0000
                    ==> keep is Free
                &&& !(look.underground && look.cell / 0x1_0000 == landblock / 0x1_0000) ==> {
                    &&& keep is Visit || keep is Free
                    &&& keep is Visit ==> keep->Visit_0 < portals.len() && way_down(
                        portals[keep->Visit_0 as int],
                        landblock,
                    ) && forall|k: int|
                        0 <= k < portals.len() && way_down(#[trigger] portals[k], landblock)
                            ==> portals[keep->Visit_0 as int].mouth.spec_away(here).place()
                            <= portals[k].mouth.spec_away(here).place()
                    &&& keep is Free ==> forall|k: int|
                        0 <= k < portals.len() ==> !way_down(#[trigger] portals[k], landblock)
                }
            },
        },
{
    match area.shape {
        Shape::Outline { points } => {},
        Shape::Dungeon { landblock, .. } => {
            lemma_block(look.cell, landblock);
            law_the_entrance_is_the_nearest(portals, landblock, look.me->0.spec_flat());
        },
    }
}

/// A character inside its area, or that has none, or that is not to fight, is left
/// where it is with nothing said.
pub proof fn law_nobody_else_is_sent_back(
    area: Option<HuntArea>,
    look: KeepLook,
    portals: Seq<Portal>,
)
    requires
        area is None || !look.fight_enabled || look.me is None || area->0.spec_contains(
            look.me->0,
            look.cell,
            look.underground,
        ),
    ensures
        kept(area, look, portals) == (Keep::Free, Seq::<Deed>::empty()),
{
}

/// As far one way as the other: how far it is from one place to another is how far
/// it is back.
pub proof fn law_the_way_back_is_as_far(a: Point, b: Point)
    ensures
        a.spec_away(b) == b.spec_away(a),
{
    reveal(Point::spec_away);
    lemma_square(a.x, b.x);
    lemma_square(a.y, b.y);
    lemma_square(a.z, b.z);
}

/// The same holds on the flat.
pub proof fn law_the_way_back_is_as_far_on_the_flat(a: Spot, b: Spot)
    ensures
        a.spec_away(b) == b.spec_away(a),
{
    reveal(Spot::spec_away);
    lemma_square(a.x, b.x);
    lemma_square(a.y, b.y);
}

proof fn lemma_square(a: Single, b: Single)
    ensures
        ({
            let d = a.sum(b.opposite());
            let e = b.sum(a.opposite());
            d.product(d) == e.product(e)
        }),
{
    let d = a.sum(b.opposite());
    let e = b.sum(a.opposite());
    assert(b.opposite().magnitude() == b.magnitude());
    assert(a.opposite().magnitude() == a.magnitude());
    assert(b.opposite().negative() == !b.negative());
    assert(a.opposite().negative() == !a.negative());
    if a.finite() && b.finite() {
        let t = a.signed() - b.signed();
        assert(a.signed() + b.opposite().signed() == t);
        assert(b.signed() + a.opposite().signed() == -t);
        if t != 0 {
            let m = crate::single::lemma_some_nearest(
                if t < 0 {
                    -t
                } else {
                    t
                },
                1,
            );
            assert(0 <= m <= 0x7f80_0000);
            assert(d.magnitude() == m && e.magnitude() == m);
        }
    }
    assert(d.nan() == e.nan());
    assert(d.magnitude() == e.magnitude());
}

/// The edge that ends at a corner, from the corner before it; the last joins the
/// first.
pub open spec fn edge(corners: Seq<Spot>, i: int) -> (Spot, Spot) {
    if i == 0 {
        (corners[0], corners[corners.len() - 1])
    } else {
        (corners[i], corners[i - 1])
    }
}

/// The edges of an outline.
pub open spec fn edges(corners: Seq<Spot>) -> Seq<(Spot, Spot)> {
    Seq::new(corners.len(), |i: int| edge(corners, i))
}

proof fn lemma_crossings(p: Spot, corners: Seq<Spot>, n: nat)
    requires
        n <= corners.len(),
    ensures
        crossings(p, corners, n) == edges(corners).take(n as int).filter(
            |e: (Spot, Spot)| crosses(p, e.0, e.1),
        ).len(),
    decreases n,
{
    reveal(Seq::filter);
    let all = edges(corners).take(n as int);
    if n > 0 {
        lemma_crossings(p, corners, (n - 1) as nat);
        assert(all.drop_last() =~= edges(corners).take(n - 1));
        assert(all.last() == edge(corners, n - 1));
    }
}

/// A place is inside three corners or more just where a line to the right of it
/// crosses an odd number of their edges, each counted once.
pub proof fn law_inside_is_an_odd_number_of_crossings(p: Spot, corners: Seq<Spot>)
    requires
        corners.len() >= 3,
    ensures
        spec_inside(p, corners) <==> edges(corners).filter(
            |e: (Spot, Spot)| crosses(p, e.0, e.1),
        ).len() % 2 == 1,
{
    lemma_crossings(p, corners, corners.len());
    assert(edges(corners).take(corners.len() as int) =~= edges(corners));
}

/// Nought times or over a number is nought, one sign or the other.
proof fn lemma_nought_stays(d: Single, zero: Single, e: Single)
    requires
        d.finite(),
        zero.magnitude() == 0,
        !e.nan(),
        e.magnitude() != 0,
    ensures
        d.product(zero).magnitude() == 0,
        zero.quotient(e).magnitude() == 0,
{
    let p = pow2(149) as int;
    lemma_pow2_pos(149);
    lemma_nought();
    let u = units(d.magnitude());
    assert(u * units(0) == units(0) * p) by (nonlinear_arith)
        requires
            units(0) == 0,
    ;
    lemma_exact_over(0, p);
    crate::single::lemma_nearest(units(0) * p, p, 0);
    if e.finite() {
        lemma_units_increase(0, e.magnitude());
        let v = units(e.magnitude());
        assert(units(0) * p == units(0) * v) by (nonlinear_arith)
            requires
                units(0) == 0,
        ;
        lemma_exact_over(0, v);
        crate::single::lemma_nearest(units(0) * v, v, 0);
    }
}

/// A number and nought come to that number.
proof fn lemma_and_nought(x: Single, zero: Single)
    requires
        x.finite(),
        zero.magnitude() == 0,
    ensures
        !x.sum(zero).nan(),
        x.sum(zero).rank() == x.rank(),
{
    lemma_nought();
    let m = x.magnitude();
    lemma_exact(m);
    lemma_units_increase(0, m);
    assert(zero.signed() == 0);
    if m > 0 {
        assert(units(m) > 0);
        assert(x.sum(zero) == Single::of(x.negative(), m));
    } else {
        assert(x.signed() == 0);
    }
}

/// Two numbers that are not the same are apart.
proof fn lemma_some_way_apart(a: Single, b: Single)
    requires
        a.finite(),
        b.finite(),
        a.rank() != b.rank(),
    ensures
        !b.sum(a.opposite()).nan(),
        b.sum(a.opposite()).magnitude() != 0,
{
    law_numbers_are_ordered_by_size(a, b);
    law_a_number_and_its_opposite(a);
    let t = b.signed() - a.signed();
    assert(t != 0);
    let n = if t < 0 {
        -t
    } else {
        t
    };
    let r = lemma_some_nearest(n, 1);
    lemma_exact(1);
    lemma_nought();
    assert(scale(1) == 0 && digits(1) == 1);
    vstd::arithmetic::power2::lemma2_to64();
    assert(units(1) == 1);
    lemma_rounding_keeps_order(units(1), 1, n, r, 1);
    assert(b.sum(a.opposite()).magnitude() == r);
}

/// An upright edge is crossed by a line to the right of a place just where it is
/// level with it and to the right of it.
proof fn lemma_upright(p: Spot, x: Single, low: Single, high: Single)
    requires
        x.finite() && low.finite() && high.finite() && p.x.finite() && p.y.finite(),
        p.y.sum(low.opposite()).finite(),
    ensures
        crosses(p, Spot { x, y: low }, Spot { x, y: high }) <==> (p.y.below(low) <==> !p.y.below(
            high,
        )) && p.x.below(x),
{
    reveal(crosses);
    let (a, b) = (Spot { x, y: low }, Spot { x, y: high });
    if p.y.below(low) != p.y.below(high) {
        assert(low.rank() != high.rank());
        law_a_number_and_its_opposite(x);
        let zero = x.sum(x.opposite());
        let d = p.y.sum(low.opposite());
        let e = high.sum(low.opposite());
        lemma_some_way_apart(low, high);
        lemma_nought_stays(d, zero, e);
        let one = d.product(zero);
        lemma_nought_stays(d, one, e);
        let two = one.quotient(e);
        lemma_and_nought(x, two);
        assert(meets(p, a, b) == x.sum(two));
    }
}

/// Inside an upright rectangle lies what is no further left or down than its left
/// and lower edges, and further left and down than the other two.
pub proof fn law_inside_a_rectangle(
    p: Spot,
    left: Single,
    right: Single,
    low: Single,
    high: Single,
)
    requires
        p.x.finite() && p.y.finite(),
        left.finite() && right.finite() && low.finite() && high.finite(),
        left.at_most(right) && low.at_most(high),
        p.y.sum(low.opposite()).finite() && p.y.sum(high.opposite()).finite(),
    ensures
        spec_inside(
            p,
            seq![
                Spot { x: left, y: low },
                Spot { x: right, y: low },
                Spot { x: right, y: high },
                Spot { x: left, y: high },
            ],
        ) <==> left.at_most(p.x) && p.x.below(right) && low.at_most(p.y) && p.y.below(high),
{
    let corners = seq![
        Spot { x: left, y: low },
        Spot { x: right, y: low },
        Spot { x: right, y: high },
        Spot { x: left, y: high },
    ];
    lemma_upright(p, left, low, high);
    lemma_upright(p, right, high, low);
    assert(!crosses(p, corners[1], corners[0]) && !crosses(p, corners[3], corners[2])) by {
        reveal(crosses);
    }
    assert(crossings(p, corners, 0) == 0);
    assert(crossings(p, corners, 1) == if crosses(p, corners[0], corners[3]) {
        1nat
    } else {
        0nat
    });
    assert(crossings(p, corners, 2) == crossings(p, corners, 1));
    assert(crossings(p, corners, 3) == crossings(p, corners, 2) + if crosses(
        p,
        corners[2],
        corners[1],
    ) {
        1nat
    } else {
        0nat
    });
    assert(crossings(p, corners, 4) == crossings(p, corners, 3));
}

} // verus!
