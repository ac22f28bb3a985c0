//! What holds of reckoning with single-precision numbers.

use crate::place::{Point, Spot};
use crate::single::{
    digits, lemma_exact, lemma_nearest, lemma_next, lemma_rounding_keeps_order, lemma_some_nearest,
    lemma_units_increase, middle, nearest_root, roots_past, roots_to, rounds_past, rounds_to, scale,
    units, Single, INFINITE,
};
use vstd::arithmetic::power2::{lemma_pow2_adds, lemma_pow2_pos, pow2};
use vstd::prelude::*;

verus! {

pub proof fn lemma_one()
    ensures
        units(0x3f80_0000) == pow2(149),
{
    let one: int = 0x3f80_0000;
    lemma_pow2_adds(126, 23);
    vstd::arithmetic::power2::lemma2_to64();
    assert(pow2(23) == 0x80_0000);
    assert(scale(one) == 126 && digits(one) == 0x80_0000);
}

pub proof fn lemma_nought()
    ensures
        units(0) == 0,
{
    assert(digits(0) == 0);
    assert(0 * pow2(scale(0)) == 0) by (nonlinear_arith);
}

/// A whole number is a number, and one from 1 on is at least 1.
pub proof fn lemma_whole(n: int) -> (m: int)
    requires
        0 <= n <= u32::MAX,
    ensures
        rounds_to(n * pow2(149), 1, m),
        Single::whole(n) == Single::of(false, m),
        0 <= m < INFINITE,
        n >= 1 ==> m >= 0x3f80_0000,
        n == 0 ==> m == 0,
{
    let m = lemma_some_nearest(n * pow2(149), 1);
    let high: int = 0x4f80_0000;
    let one: int = 0x3f80_0000;
    lemma_exact(high);
    lemma_exact(one);
    lemma_exact(0);
    lemma_one();
    lemma_nought();
    lemma_pow2_adds(149, 9);
    lemma_pow2_pos(149);
    vstd::arithmetic::power2::lemma2_to64();
    assert(scale(high) == 158 && digits(high) == 0x80_0000);
    let p = pow2(149) as int;
    assert(n * p <= 0x80_0000 * (p * 512)) by (nonlinear_arith)
        requires
            0 <= n <= 0xffff_ffff,
            p > 0,
    ;
    lemma_rounding_keeps_order(n * p, m, units(high), high, 1);
    if n >= 1 {
        assert(n * p >= p) by (nonlinear_arith)
            requires
                n >= 1,
                p > 0,
        ;
        lemma_rounding_keeps_order(units(one), one, n * p, m, 1);
    } else {
        lemma_rounding_keeps_order(n * p, m, units(0), 0, 1);
    }
    m
}

/// A number that is there is what it rounds to, over anything.
pub proof fn lemma_exact_over(m: int, d: int)
    requires
        0 <= m < INFINITE,
        d > 0,
    ensures
        rounds_to(units(m) * d, d, m),
{
    lemma_exact(m);
    let n = units(m);
    if m > 0 {
        let k = middle(m - 1);
        assert(rounds_past(n, 1, m - 1));
        assert(k < 2 * n ==> k * d < 2 * (n * d)) by (nonlinear_arith)
            requires
                d > 0,
        ;
        assert(k == 2 * n ==> k * d == 2 * (n * d)) by (nonlinear_arith);
    }
    let k = middle(m);
    assert(!rounds_past(n, 1, m));
    assert(k > 2 * n ==> k * d > 2 * (n * d)) by (nonlinear_arith)
        requires
            d > 0,
    ;
    assert(k == 2 * n ==> k * d == 2 * (n * d)) by (nonlinear_arith);
}

/// One number is below another just where it is less, and the larger and the
/// smaller of two are the one that is and the one that is not.
pub proof fn law_numbers_are_ordered_by_size(a: Single, b: Single)
    requires
        a.finite(),
        b.finite(),
    ensures
        a.below(b) <==> a.signed() < b.signed(),
        a.at_most(b) <==> a.signed() <= b.signed(),
        a.larger(b) == a || a.larger(b) == b,
        a.smaller(b) == a || a.smaller(b) == b,
        a.larger(b).signed() >= a.signed() && a.larger(b).signed() >= b.signed(),
        a.smaller(b).signed() <= a.signed() && a.smaller(b).signed() <= b.signed(),
{
    let (x, y) = (a.magnitude(), b.magnitude());
    lemma_nought();
    lemma_units_increase(0, x);
    lemma_units_increase(0, y);
    if x <= y {
        lemma_units_increase(x, y);
    } else {
        lemma_units_increase(y, x);
    }
}

/// A number lies between two others as far as they let it.
pub proof fn law_a_number_is_kept_within_bounds(a: Single, low: Single, high: Single)
    requires
        !a.nan() && low.at_most(high),
    ensures
        low.at_most(a.within(low, high)) && a.within(low, high).at_most(high),
        low.at_most(a) && a.at_most(high) ==> a.within(low, high) == a,
        a.within(low, high) == a || a.within(low, high) == low || a.within(low, high) == high,
{
}

/// Adding and multiplying go either way round.
pub proof fn law_either_way_round(a: Single, b: Single)
    ensures
        a.sum(b) == b.sum(a),
        a.product(b) == b.product(a),
{
    let (x, y) = (units(a.magnitude()), units(b.magnitude()));
    assert(x * y == y * x) by (nonlinear_arith);
    if a.infinite() && b.infinite() && a.negative() == b.negative() {
        assert(a.bits % 0x8000_0000 == b.bits % 0x8000_0000);
        assert(a.bits == b.bits);
    }
}

/// A number and its opposite are as large and come to nought.
pub proof fn law_a_number_and_its_opposite(a: Single)
    requires
        a.finite(),
    ensures
        a.opposite().magnitude() == a.magnitude(),
        a.opposite().signed() == -a.signed(),
        a.sum(a.opposite()) == (Single { bits: 0 }),
        a.opposite().opposite() == a,
{
    assert(a.opposite().magnitude() == a.magnitude());
    assert(a.opposite().negative() == !a.negative());
}

/// A finite number rebuilt from its parts is itself.
proof fn lemma_rebuilt(a: Single)
    ensures
        Single::of(a.negative(), a.magnitude()) == a,
{
}

/// Once a number is that number, over 1 it is too, and over itself it is 1.
pub proof fn law_once_and_over_itself(a: Single)
    requires
        a.finite(),
    ensures
        a.product(Single { bits: 0x3f80_0000 }) == a,
        a.quotient(Single { bits: 0x3f80_0000 }) == a,
        a.magnitude() != 0 ==> a.quotient(a) == (Single { bits: 0x3f80_0000 }),
{
    let one = Single { bits: 0x3f80_0000 };
    let m = a.magnitude();
    let p = pow2(149) as int;
    lemma_pow2_pos(149);
    lemma_one();
    assert(one.magnitude() == 0x3f80_0000 && !one.negative());
    lemma_exact_over(m, p);
    lemma_nearest(units(m) * p, p, m);
    lemma_rebuilt(a);
    if m != 0 {
        lemma_nought();
        lemma_units_increase(0, m);
        lemma_exact_over(0x3f80_0000, units(m));
        let d = units(m);
        assert(units(0x3f80_0000) * d == d * p) by (nonlinear_arith)
            requires
                units(0x3f80_0000) == p,
        ;
        lemma_nearest(units(m) * p, units(m), 0x3f80_0000);
    }
}

/// How far one number is from another.
pub open spec fn apart(a: int, b: int) -> int {
    if a < b {
        b - a
    } else {
        a - b
    }
}

/// Halfway to the next number is halfway.
proof fn lemma_middle(m: int)
    requires
        0 <= m,
    ensures
        middle(m) == units(m) + units(m + 1),
{
    lemma_next(m);
    let g = digits(m);
    let p = pow2(scale(m)) as int;
    assert((2 * g + 1) * p == g * p + (g * p + p)) by (nonlinear_arith);
}

/// What a quotient rounds to is as near to it as any number.
pub proof fn lemma_is_nearest(n: int, d: int, r: int, c: int)
    requires
        d > 0,
        rounds_to(n, d, r),
        r < INFINITE,
        0 <= c < INFINITE,
    ensures
        apart(units(r) * d, n) <= apart(units(c) * d, n),
{
    let u = units(r);
    let v = units(c);
    if c > r {
        lemma_middle(r);
        lemma_units_increase(r + 1, c);
        lemma_units_increase(r, r + 1);
        let w = units(r + 1);
        let k = middle(r);
        assert(k == u + w);
        assert(k * d == u * d + w * d) by (nonlinear_arith)
            requires
                k == u + w,
        ;
        assert(w * d <= v * d) by (nonlinear_arith)
            requires
                w <= v,
                d > 0,
        ;
        assert(u * d <= w * d) by (nonlinear_arith)
            requires
                u <= w,
                d > 0,
        ;
        assert(!rounds_past(n, d, r));
    } else if c < r {
        lemma_middle(r - 1);
        lemma_units_increase(c, r - 1);
        lemma_units_increase(r - 1, r);
        let w = units(r - 1);
        let k = middle(r - 1);
        assert(k == w + u);
        assert(k * d == w * d + u * d) by (nonlinear_arith)
            requires
                k == w + u,
        ;
        assert(v * d <= w * d) by (nonlinear_arith)
            requires
                v <= w,
                d > 0,
        ;
        assert(w * d <= u * d) by (nonlinear_arith)
            requires
                w <= u,
                d > 0,
        ;
        assert(rounds_past(n, d, r - 1));
    }
}

/// What two numbers come to is the number nearest to their sum: no other is nearer,
/// as long as it is not too large to be one.
pub proof fn law_a_sum_is_the_nearest_number(a: Single, b: Single, c: Single)
    requires
        a.finite(),
        b.finite(),
        c.finite(),
        a.sum(b).finite(),
    ensures
        apart(a.sum(b).signed(), a.signed() + b.signed()) <= apart(
            c.signed(),
            a.signed() + b.signed(),
        ),
{
    let t = a.signed() + b.signed();
    let s = a.sum(b);
    lemma_nought();
    lemma_units_increase(0, c.magnitude());
    if t != 0 {
        let n = if t < 0 {
            -t
        } else {
            t
        };
        let r = lemma_some_nearest(n, 1);
        assert(s.magnitude() == r);
        assert(s.negative() == (t < 0));
        lemma_is_nearest(n, 1, r, c.magnitude());
        lemma_is_nearest(n, 1, r, 0);
        assert(units(r) * 1 == units(r));
        assert(units(c.magnitude()) * 1 == units(c.magnitude()));
    } else {
        assert(s.magnitude() == 0);
    }
}

/// A product of two numbers is the number of its sign nearest to it.
pub proof fn law_a_product_is_the_nearest_number(a: Single, b: Single, c: Single)
    requires
        a.finite(),
        b.finite(),
        c.finite(),
        a.product(b).finite(),
    ensures
        a.product(b).negative() == (a.negative() != b.negative()),
        apart(
            units(a.product(b).magnitude()) * pow2(149),
            units(a.magnitude()) * units(b.magnitude()),
        ) <= apart(
            units(c.magnitude()) * pow2(149),
            units(a.magnitude()) * units(b.magnitude()),
        ),
{
    lemma_pow2_pos(149);
    let n = units(a.magnitude()) * units(b.magnitude());
    let r = lemma_some_nearest(n, pow2(149) as int);
    assert(a.product(b).magnitude() == r);
    lemma_is_nearest(n, pow2(149) as int, r, c.magnitude());
}

/// A quotient of two numbers is the number of its sign nearest to it.
pub proof fn law_a_quotient_is_the_nearest_number(a: Single, b: Single, c: Single)
    requires
        a.finite(),
        b.finite(),
        b.magnitude() != 0,
        c.finite(),
        a.quotient(b).finite(),
    ensures
        a.quotient(b).negative() == (a.negative() != b.negative()),
        apart(
            units(a.quotient(b).magnitude()) * units(b.magnitude()),
            units(a.magnitude()) * pow2(149),
        ) <= apart(
            units(c.magnitude()) * units(b.magnitude()),
            units(a.magnitude()) * pow2(149),
        ),
{
    lemma_nought();
    lemma_units_increase(0, b.magnitude());
    let n = units(a.magnitude()) * pow2(149);
    let d = units(b.magnitude());
    let r = lemma_some_nearest(n, d);
    assert(a.quotient(b).magnitude() == r);
    lemma_is_nearest(n, d, r, c.magnitude());
}

/// A whole number is the number nearest to it.
pub proof fn law_a_whole_number_is_the_nearest_number(n: int, c: Single)
    requires
        0 <= n <= u32::MAX,
        c.finite(),
    ensures
        Single::whole(n).finite() && !Single::whole(n).negative(),
        apart(units(Single::whole(n).magnitude()), n * pow2(149)) <= apart(
            units(c.magnitude()),
            n * pow2(149),
        ),
{
    let m = lemma_whole(n);
    assert(Single::whole(n).magnitude() == m);
    lemma_is_nearest(n * pow2(149), 1, m, c.magnitude());
    assert(units(m) * 1 == units(m));
    assert(units(c.magnitude()) * 1 == units(c.magnitude()));
}

/// The whole part of a number is the largest whole number that is not more, held to
/// what can be counted; the nearest whole number is no further off than half; and
/// the one it is raised to is the first that is not less.
pub proof fn law_the_whole_part_of_a_number(a: Single)
    requires
        a.finite(),
    ensures
        ({
            let u = units(a.magnitude());
            let p = pow2(149) as int;
            &&& a.negative() ==> a.cut() == 0
            &&& !a.negative() && a.cut() < u32::MAX ==> a.cut() * p <= u < (a.cut() + 1) * p
            &&& !a.negative() && a.cut() == u32::MAX ==> u >= u32::MAX * p
            &&& apart(2 * (a.rounded_size() * p), 2 * u) <= p
            &&& a.raised_size() * p >= u
            &&& u > (a.raised_size() - 1) * p
        }),
{
    let u = units(a.magnitude());
    let p = pow2(149) as int;
    lemma_pow2_pos(149);
    lemma_nought();
    lemma_units_increase(0, a.magnitude());
    let q = u / p;
    let r = u % p;
    assert(u == q * p + r && 0 <= r < p && q >= 0) by (nonlinear_arith)
        requires
            q == u / p,
            r == u % p,
            p > 0,
            u >= 0,
    ;
    assert((q + 1) * p == q * p + p) by (nonlinear_arith);
    assert((q - 1) * p == q * p - p) by (nonlinear_arith);
    if q > u32::MAX {
        assert(u32::MAX * p <= q * p) by (nonlinear_arith)
            requires
                u32::MAX <= q,
                p > 0,
        ;
    }
}

/// A number as a count is the nearest one, the larger of two as near; nothing below
/// nought.
pub proof fn law_the_nearest_count(a: Single)
    requires
        a.finite(),
    ensures
        ({
            let u = units(a.magnitude());
            let p = pow2(149) as int;
            &&& a.negative() ==> a.near() == 0
            &&& !a.negative() && a.near() < u32::MAX ==> 2 * (a.near() * p) <= 2 * u + p < 2 * (
            a.near() * p) + 2 * p
            &&& !a.negative() && a.near() == u32::MAX ==> 2 * u + p >= 2 * (u32::MAX * p)
            &&& a.grid() > 0 ==> !a.negative()
            &&& a.grid() < 0 ==> a.negative()
            &&& 0 <= a.grid() < i32::MAX && !a.negative() ==> 2 * (a.grid() * p) <= 2 * u + p < 2
                * (a.grid() * p) + 2 * p
            &&& i32::MIN < a.grid() && a.negative() ==> 2 * (-a.grid() * p) <= 2 * u + p < 2 * (
            -a.grid() * p) + 2 * p
        }),
{
    let u = units(a.magnitude());
    let p = pow2(149) as int;
    lemma_pow2_pos(149);
    lemma_nought();
    lemma_units_increase(0, a.magnitude());
    let q = u / p;
    let r = u % p;
    assert(u == q * p + r && 0 <= r < p && q >= 0) by (nonlinear_arith)
        requires
            q == u / p,
            r == u % p,
            p > 0,
            u >= 0,
    ;
    assert((q + 1) * p == q * p + p) by (nonlinear_arith);
    let n = if 2 * r >= p {
        q + 1
    } else {
        q
    };
    if n > u32::MAX {
        assert(u32::MAX * p <= n * p) by (nonlinear_arith)
            requires
                u32::MAX <= n,
                p > 0,
        ;
    }
}

/// So many times a number is the nearest whole number.
pub proof fn law_so_many_times_a_number(a: Single, by: int)
    requires
        by >= 0,
        a.spec_scaled(by) is Some,
    ensures
        a.finite(),
        apart(2 * (a.spec_scaled(by)->0 * pow2(149)), 2 * (units(a.magnitude()) * by)) <= pow2(149),
{
    let n = units(a.magnitude()) * by;
    let p = pow2(149) as int;
    lemma_pow2_pos(149);
    let q = n / p;
    let r = n % p;
    assert(n == q * p + r && 0 <= r < p) by (nonlinear_arith)
        requires
            q == n / p,
            r == n % p,
            p > 0,
    ;
    assert((q + 1) * p == q * p + p) by (nonlinear_arith);
}

proof fn find_root(k: int, from: int) -> (r: int)
    requires
        0 <= from <= INFINITE,
        from > 0 ==> roots_past(k, from - 1),
    ensures
        roots_to(k, r),
    decreases INFINITE - from,
{
    if from < INFINITE && roots_past(k, from) {
        find_root(k, from + 1)
    } else {
        from
    }
}

/// The root of a number is the nearest there is: halfway from it to any larger
/// number is no less than the root, and halfway to any smaller one no more.
pub proof fn law_a_root_is_the_nearest_number(a: Single, c: Single)
    requires
        a.finite(),
        !a.negative(),
        a.magnitude() != 0,
        c.finite(),
    ensures
        ({
            let r = a.square_root();
            let k = units(a.magnitude()) * pow2(149);
            let half = units(r.magnitude()) + units(c.magnitude());
            &&& !r.negative() && r.magnitude() <= INFINITE
            &&& c.magnitude() > r.magnitude() ==> half * half >= 4 * k
            &&& c.magnitude() < r.magnitude() ==> half * half <= 4 * k
        }),
{
    let k = units(a.magnitude()) * pow2(149);
    let s = find_root(k, 0);
    let r = nearest_root(k);
    assert(roots_to(k, r));
    let m = c.magnitude();
    lemma_nought();
    lemma_units_increase(0, r);
    lemma_units_increase(0, m);
    let half = units(r) + units(m);
    if m > r {
        lemma_middle(r);
        lemma_units_increase(r + 1, m);
        let w = middle(r);
        assert(!roots_past(k, r));
        assert(w * w <= half * half) by (nonlinear_arith)
            requires
                0 <= w <= half,
        ;
    } else if m < r {
        lemma_middle(r - 1);
        lemma_units_increase(m, r - 1);
        let w = middle(r - 1);
        assert(roots_past(k, r - 1));
        assert(half * half <= w * w) by (nonlinear_arith)
            requires
                0 <= half <= w,
        ;
    }
}

/// A place is at no distance from itself.
pub proof fn law_a_place_is_where_it_is(a: Point, b: Spot)
    ensures
        a.x.finite() && a.y.finite() && a.z.finite() ==> a.spec_away(a) == (Single { bits: 0 }),
        b.x.finite() && b.y.finite() ==> b.spec_away(b) == (Single { bits: 0 }),
{
    reveal(Point::spec_away);
    reveal(Spot::spec_away);
    let nought = Single { bits: 0 };
    lemma_nought();
    lemma_pow2_pos(149);
    lemma_exact_over(0, pow2(149) as int);
    let p = pow2(149) as int;
    assert(units(0) * units(0) == units(0) * p) by (nonlinear_arith)
        requires
            units(0) == 0,
    ;
    lemma_nearest(units(0) * p, p, 0);
    assert(nought.magnitude() == 0 && !nought.negative());
    assert(nought.product(nought) == nought);
    assert(nought.sum(nought) == nought);
    if a.x.finite() && a.y.finite() && a.z.finite() {
        law_a_number_and_its_opposite(a.x);
        law_a_number_and_its_opposite(a.y);
        law_a_number_and_its_opposite(a.z);
    }
    if b.x.finite() && b.y.finite() {
        law_a_number_and_its_opposite(b.x);
        law_a_number_and_its_opposite(b.y);
    }
}

} // verus!
