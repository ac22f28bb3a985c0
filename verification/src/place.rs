//! Places on the map, and how far apart they are.

use crate::single::Single;
use crate::text::{cat2, count, counted};
use vstd::prelude::*;
use vstd::string::*;

verus! {

/// A place on the map, in metres.
#[derive(Clone, Copy, Debug, PartialEq, Eq, Structural)]
pub struct Spot {
    pub x: Single,
    pub y: Single,
}

/// A place with its height, in metres.
#[derive(Clone, Copy, Debug, PartialEq, Eq, Structural)]
pub struct Point {
    pub x: Single,
    pub y: Single,
    pub z: Single,
}

impl Spot {
    /// How far one place is from another.
    #[verifier::opaque]
    pub open spec fn spec_away(self, other: Spot) -> Single {
        let dx = self.x.sum(other.x.opposite());
        let dy = self.y.sum(other.y.opposite());
        dx.product(dx).sum(dy.product(dy)).square_root()
    }

    /// How far one place is from another.
    pub fn away(self, other: Spot) -> (r: Single)
        ensures
            r == self.spec_away(other),
    {
        proof {
            reveal(Spot::spec_away);
        }
        let dx = self.x.minus(other.x);
        let dy = self.y.minus(other.y);
        dx.times(dx).plus(dy.times(dy)).root()
    }

    /// Where a place is to the metre.
    pub open spec fn spec_spot(self) -> (i32, i32) {
        (self.x.grid(), self.y.grid())
    }
}

impl Point {
    /// How far one place is from another.
    #[verifier::opaque]
    pub open spec fn spec_away(self, other: Point) -> Single {
        let dx = self.x.sum(other.x.opposite());
        let dy = self.y.sum(other.y.opposite());
        let dz = self.z.sum(other.z.opposite());
        dx.product(dx).sum(dy.product(dy)).sum(dz.product(dz)).square_root()
    }

    /// How far one place is from another.
    pub fn away(self, other: Point) -> (r: Single)
        ensures
            r == self.spec_away(other),
    {
        proof {
            reveal(Point::spec_away);
        }
        let dx = self.x.minus(other.x);
        let dy = self.y.minus(other.y);
        let dz = self.z.minus(other.z);
        dx.times(dx).plus(dy.times(dy)).plus(dz.times(dz)).root()
    }

    pub open spec fn spec_flat(self) -> Spot {
        Spot { x: self.x, y: self.y }
    }

    /// The place without its height.
    pub fn flat(self) -> (r: Spot)
        ensures
            r == self.spec_flat(),
    {
        Spot { x: self.x, y: self.y }
    }
}

/// Where a counter stands, to the metre: what a skipped vendor is remembered
/// by. Two vendors a metre apart are the same counter for this purpose.
pub fn spot(at: Spot) -> (r: (i32, i32))
    ensures
        r == at.spec_spot(),
{
    (at.x.to_grid(), at.y.to_grid())
}

/// 50.0
pub const FIFTY: u32 = 0x4248_0000;

/// A distance in steps of fifty metres.
pub open spec fn in_fifties(distance: Single) -> u32 {
    let steps = distance.quotient(Single { bits: FIFTY });
    steps.spec_ceil().product(Single { bits: FIFTY }).cut()
}

/// A distance for a status line, in steps of fifty metres, so the line changes
/// (and is logged) now and then rather than every frame.
pub fn about(distance: Single) -> (r: String)
    ensures
        r@ == counted(in_fifties(distance) as nat) + " m"@,
{
    let steps = distance.over(Single { bits: FIFTY });
    let n = count(steps.ceil().times(Single { bits: FIFTY }).to_u32() as u128);
    cat2(n.as_str(), " m")
}

} // verus!
