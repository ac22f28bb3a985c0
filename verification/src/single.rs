//! Single-precision numbers, held as their bit patterns, with arithmetic that
//! rounds to the nearest number and to the even one where two are as near.

use vstd::arithmetic::power2::{
    lemma_pow2_adds, lemma_pow2_pos, lemma_pow2_strictly_increases, lemma_pow2_unfold, pow2,
};
use vstd::prelude::*;

verus! {

/// The magnitude that stands for infinity; what lies above it is not a number.
pub const INFINITE: u32 = 0x7f80_0000;

/// The bit that is set on a negative number.
pub const SIGN: u32 = 0x8000_0000;

/// The first magnitude that is written with its leading digit left out.
pub const HIDDEN: u32 = 0x0080_0000;

/// A single-precision number.
#[derive(Clone, Copy, Default, PartialEq, Eq, Structural, Debug)]
pub struct Single {
    pub bits: u32,
}

/// What an operation gives that has no number for an answer.
pub const NOT_A_NUMBER: u32 = 0x7fc0_0000;

/// How many times the spacing of the smallest numbers is doubled at `m`.
pub open spec fn scale(m: int) -> nat {
    if m < HIDDEN {
        0
    } else {
        (m / (HIDDEN as int) - 1) as nat
    }
}

/// The number at `m`, counted in spacings at `m`.
pub open spec fn digits(m: int) -> int {
    m - scale(m) * HIDDEN
}

/// The number at `m`, counted in the smallest number there is.
pub open spec fn units(m: int) -> int {
    digits(m) * pow2(scale(m))
}

/// Twice what lies halfway between the numbers at `m` and at `m + 1`.
pub open spec fn middle(m: int) -> int {
    (2 * digits(m) + 1) * pow2(scale(m))
}

/// `n / d` rounds to a number above the one at `m`.
pub open spec fn rounds_past(n: int, d: int, m: int) -> bool {
    middle(m) * d < 2 * n || (middle(m) * d == 2 * n && m % 2 == 1)
}

/// The number at `r` is the one that `n / d` rounds to.
pub open spec fn rounds_to(n: int, d: int, r: int) -> bool {
    &&& 0 <= r <= INFINITE
    &&& r > 0 ==> rounds_past(n, d, r - 1)
    &&& r < INFINITE ==> !rounds_past(n, d, r)
}

/// Where the number stands that `n / d` rounds to, both counted in the
/// smallest number there is.
pub open spec fn nearest(n: int, d: int) -> int {
    choose|r: int| rounds_to(n, d, r)
}

/// The root of `k` rounds to a number above the one at `m`.
pub open spec fn roots_past(k: int, m: int) -> bool {
    let q = middle(m) * middle(m);
    q < 4 * k || (q == 4 * k && m % 2 == 1)
}

/// The number at `r` is the one that the root of `k` rounds to.
pub open spec fn roots_to(k: int, r: int) -> bool {
    &&& 0 <= r <= INFINITE
    &&& r > 0 ==> roots_past(k, r - 1)
    &&& r < INFINITE ==> !roots_past(k, r)
}

/// Where the number stands that the root of `k` rounds to.
pub open spec fn nearest_root(k: int) -> int {
    choose|r: int| roots_to(k, r)
}

/// The whole number nearest to `n / d`, the even one of two as near.
pub open spec fn half_even(n: int, d: int) -> int {
    let q = n / d;
    let r = n % d;
    if 2 * r < d || (2 * r == d && q % 2 == 0) {
        q
    } else {
        q + 1
    }
}

/// The point halfway to the next number rises from number to number.
proof fn lemma_middle_step(m: int)
    requires
        0 <= m,
    ensures
        middle(m) < middle(m + 1),
{
    let h = HIDDEN as int;
    let s = scale(m);
    lemma_pow2_pos(s);
    if scale(m + 1) == s {
        assert(digits(m + 1) == digits(m) + 1);
        assert((2 * digits(m) + 3) * pow2(s) > (2 * digits(m) + 1) * pow2(s)) by (nonlinear_arith)
            requires
                pow2(s) > 0,
        ;
    } else {
        assert(scale(m + 1) == s + 1);
        assert(digits(m) == 2 * h - 1);
        assert(digits(m + 1) == h);
        lemma_pow2_unfold(s + 1);
        assert((2 * h + 1) * (2 * pow2(s)) > (4 * h - 1) * pow2(s)) by (nonlinear_arith)
            requires
                pow2(s) > 0,
        ;
    }
}

proof fn lemma_middle_increases(a: int, b: int)
    requires
        0 <= a < b,
    ensures
        middle(a) < middle(b),
    decreases b - a,
{
    lemma_middle_step(b - 1);
    if a < b - 1 {
        lemma_middle_increases(a, b - 1);
    }
}

/// A larger quotient never rounds to a smaller number.
pub proof fn lemma_rounding_keeps_order(n: int, r: int, k: int, s: int, d: int)
    requires
        d > 0,
        n <= k,
        rounds_to(n, d, r),
        rounds_to(k, d, s),
    ensures
        r <= s,
{
    if s < r {
        if s < r - 1 {
            lemma_middle_increases(s, r - 1);
            assert(middle(s) * d < middle(r - 1) * d) by (nonlinear_arith)
                requires
                    middle(s) < middle(r - 1),
                    d > 0,
            ;
        }
    }
}

/// The number that a quotient rounds to is one alone.
pub proof fn lemma_nearest(n: int, d: int, r: int)
    requires
        d > 0,
        rounds_to(n, d, r),
    ensures
        nearest(n, d) == r,
{
    let s = nearest(n, d);
    assert(rounds_to(n, d, s));
    lemma_rounding_keeps_order(n, r, n, s, d);
    lemma_rounding_keeps_order(n, s, n, r, d);
}

/// Every quotient rounds to some number.
pub proof fn lemma_some_nearest(n: int, d: int) -> (r: int)
    requires
        d > 0,
    ensures
        rounds_to(n, d, r),
        nearest(n, d) == r,
{
    let r = find_nearest(n, d, 0);
    lemma_nearest(n, d, r);
    r
}

proof fn find_nearest(n: int, d: int, from: int) -> (r: int)
    requires
        0 <= from <= INFINITE,
        from > 0 ==> rounds_past(n, d, from - 1),
    ensures
        rounds_to(n, d, r),
    decreases INFINITE - from,
{
    if from == INFINITE || !rounds_past(n, d, from) {
        from
    } else {
        find_nearest(n, d, from + 1)
    }
}

/// Numbers stand in the order of their bit patterns.
pub proof fn lemma_units_increase(a: int, b: int)
    requires
        0 <= a <= b,
    ensures
        0 <= units(a) <= units(b),
        a < b ==> units(a) < units(b),
    decreases b - a,
{
    lemma_pow2_pos(scale(a));
    let g = digits(a);
    let p = pow2(scale(a));
    assert(g * p >= 0) by (nonlinear_arith)
        requires
            g >= 0,
            p > 0,
    ;
    if a < b {
        lemma_units_increase(a, b - 1);
        lemma_next(b - 1);
        lemma_pow2_pos(scale(b - 1));
    }
}

/// A number rounds to itself.
pub proof fn lemma_exact(m: int)
    requires
        0 <= m <= INFINITE,
    ensures
        rounds_to(units(m), 1, m),
        nearest(units(m), 1) == m,
{
    let g = digits(m);
    let s = scale(m);
    let p = pow2(s) as int;
    lemma_pow2_pos(s);
    assert((2 * g + 1) * p == 2 * (g * p) + p) by (nonlinear_arith);
    if m > 0 {
        if scale(m - 1) == s {
            assert(digits(m - 1) == g - 1);
            assert((2 * (g - 1) + 1) * p == 2 * (g * p) - p) by (nonlinear_arith);
        } else {
            let h = HIDDEN as int;
            assert(scale(m - 1) == s - 1);
            assert(digits(m - 1) == 2 * h - 1);
            assert(g == h);
            lemma_pow2_unfold(s);
            let q = pow2((s - 1) as nat) as int;
            lemma_pow2_pos((s - 1) as nat);
            assert((2 * (2 * h - 1) + 1) * q == 2 * (h * (2 * q)) - q) by (nonlinear_arith);
        }
    }
    lemma_nearest(units(m), 1, m);
}

/// The next number is one spacing on.
pub proof fn lemma_next(m: int)
    requires
        0 <= m,
    ensures
        units(m + 1) == units(m) + pow2(scale(m)),
{
    let g = digits(m);
    let s = scale(m);
    let p = pow2(s) as int;
    assert((g + 1) * p == g * p + p) by (nonlinear_arith);
    if scale(m + 1) == s {
        assert(digits(m + 1) == g + 1);
    } else {
        let h = HIDDEN as int;
        assert(scale(m + 1) == s + 1);
        assert(g == 2 * h - 1);
        assert(digits(m + 1) == h);
        lemma_pow2_unfold(s + 1);
        assert(h * (2 * p) == 2 * h * p) by (nonlinear_arith);
    }
}

/// The number that a root rounds to is one alone.
proof fn lemma_nearest_root(k: int, r: int)
    requires
        roots_to(k, r),
    ensures
        nearest_root(k) == r,
{
    let s = nearest_root(k);
    assert(roots_to(k, s));
    let (lo, hi) = if r <= s {
        (r, s)
    } else {
        (s, r)
    };
    if lo < hi - 1 {
        lemma_middle_increases(lo, hi - 1);
        lemma_middle_positive(lo);
        let a = middle(lo);
        let b = middle(hi - 1);
        assert(a * a < b * b) by (nonlinear_arith)
            requires
                0 < a < b,
        ;
    }
}

proof fn lemma_middle_positive(m: int)
    requires
        0 <= m,
    ensures
        middle(m) > 0,
{
    lemma_pow2_pos(scale(m));
    assert(digits(m) >= 0);
    let g = digits(m);
    let p = pow2(scale(m));
    assert((2 * g + 1) * p > 0) by (nonlinear_arith)
        requires
            g >= 0,
            p > 0,
    ;
}

proof fn lemma_one_shifted(s: u128)
    requires
        s < 128,
    ensures
        (1u128 << s) == pow2(s as nat),
    decreases s,
{
    if s == 0 {
        assert(1u128 << 0u128 == 1u128) by (bit_vector);
        vstd::arithmetic::power2::lemma2_to64();
    } else {
        let t: u128 = (s - 1) as u128;
        lemma_one_shifted(t);
        lemma_pow2_unfold(s as nat);
        lemma_pow2_strictly_increases(t as nat, 127);
        assert((1u128 << s) == 2 * (1u128 << t)) by (bit_vector)
            requires
                0 < s < 128,
                t == s - 1,
        ;
    }
}

/// Two to the power of `s`.
fn power(s: u32) -> (p: u128)
    requires
        s < 128,
    ensures
        p == pow2(s as nat),
        p > 0,
{
    proof {
        lemma_one_shifted(s as u128);
        lemma_pow2_pos(s as nat);
    }
    let t: u128 = s as u128;
    1u128 << t
}

spec fn sign_of(x: int) -> int {
    if x < 0 {
        -1
    } else if x == 0 {
        0
    } else {
        1
    }
}

proof fn lemma_above_128(s: nat)
    requires
        s >= 128,
    ensures
        pow2(s) > u128::MAX,
{
    lemma_pow2_adds(64, 64);
    vstd::arithmetic::power2::lemma2_to64();
    vstd::arithmetic::power2::lemma2_to64_rest();
    if s > 128 {
        lemma_pow2_strictly_increases(128, s);
    }
}

/// Which of `a * 2^s` and `b` is the larger.
fn weigh(a: u128, s: u32, b: u128) -> (o: i8)
    ensures
        o == sign_of(a * pow2(s as nat) - b),
{
    if a == 0 {
        return if b == 0 { 0 } else { -1 };
    }
    if s >= 128 {
        proof {
            lemma_above_128(s as nat);
            assert(a * pow2(s as nat) >= pow2(s as nat)) by (nonlinear_arith)
                requires
                    a >= 1,
                    pow2(s as nat) > 0,
            ;
        }
        return 1;
    }
    let p: u128 = power(s);
    let q: u128 = b / p;
    let r: u128 = b % p;
    proof {
        vstd::arithmetic::div_mod::lemma_fundamental_div_mod(b as int, p as int);
        vstd::arithmetic::mul::lemma_mul_is_commutative(p as int, q as int);
        assert(b == q * p + r);
    }
    if a < q {
        assert(a * p + p <= q * p) by (nonlinear_arith)
            requires
                a + 1 <= q,
                p > 0,
        ;
        -1
    } else if a > q {
        assert(a * p >= q * p + p) by (nonlinear_arith)
            requires
                a >= q + 1,
                p > 0,
        ;
        1
    } else if r == 0 {
        0
    } else {
        -1
    }
}

/// Which of `a * 2^i` and `b * 2^j` is the larger.
fn weigh_scaled(a: u128, i: u32, b: u128, j: u32) -> (o: i8)
    ensures
        o == sign_of(a * pow2(i as nat) - b * pow2(j as nat)),
{
    if i >= j {
        let s: u32 = i - j;
        proof {
            lemma_pow2_adds(s as nat, j as nat);
            lemma_pow2_pos(j as nat);
            assert(a * (pow2(s as nat) * pow2(j as nat)) - b * pow2(j as nat) == (a * pow2(s as nat)
                - b) * pow2(j as nat)) by (nonlinear_arith);
            lemma_sign_scaled(a * pow2(s as nat) - b, pow2(j as nat) as int);
        }
        weigh(a, s, b)
    } else {
        let s: u32 = j - i;
        proof {
            lemma_pow2_adds(s as nat, i as nat);
            lemma_pow2_pos(i as nat);
            assert(b * (pow2(s as nat) * pow2(i as nat)) - a * pow2(i as nat) == (b * pow2(s as nat)
                - a) * pow2(i as nat)) by (nonlinear_arith);
            lemma_sign_scaled(b * pow2(s as nat) - a, pow2(i as nat) as int);
        }
        -weigh(b, s, a)
    }
}

proof fn lemma_sign_scaled(x: int, p: int)
    by (nonlinear_arith)
    requires
        p > 0,
    ensures
        sign_of(x * p) == sign_of(x),
{
}

/// Where the number stands that `(a * 2^i) / (b * 2^j)` rounds to.
fn round(a: u128, i: u32, b: u128, j: u32) -> (r: u32)
    requires
        0 < b < 0x1_0000_0000_0000_0000,
        i < 1000,
        j < 1000,
    ensures
        r == nearest(a * pow2(i as nat), b * pow2(j as nat)),
        rounds_to(a * pow2(i as nat), b * pow2(j as nat), r as int),
{
    let ghost n = a * pow2(i as nat);
    let ghost d = b * pow2(j as nat);
    let mut lo: u32 = 0;
    let mut hi: u32 = INFINITE;
    while lo < hi
        invariant
            0 < b < 0x1_0000_0000_0000_0000,
            i < 1000,
            j < 1000,
            n == a * pow2(i as nat),
            d == b * pow2(j as nat),
            lo <= hi <= INFINITE,
            lo > 0 ==> rounds_past(n, d, lo - 1),
            hi < INFINITE ==> !rounds_past(n, d, hi as int),
        decreases hi - lo,
    {
        let m: u32 = lo + (hi - lo) / 2;
        let s: u32 = scale_at(m);
        let g: u32 = digits_at(m);
        let twice: u128 = 2 * (g as u128) + 1;
        assert(twice * b < 0x4000000 * 0x1_0000_0000_0000_0000) by (nonlinear_arith)
            requires
                twice < 0x4000000,
                0 < b < 0x1_0000_0000_0000_0000,
        ;
        let o: i8 = weigh_scaled(twice * b, s + j, a, i + 1);
        proof {
            lemma_pow2_adds(s as nat, j as nat);
            lemma_pow2_unfold((i + 1) as nat);
            assert((twice * pow2(s as nat)) * (b * pow2(j as nat)) == (twice * b) * (pow2(s as nat)
                * pow2(j as nat))) by (nonlinear_arith);
            assert(2 * (a * pow2(i as nat)) == a * (2 * pow2(i as nat))) by (nonlinear_arith);
        }
        if o < 0 || (o == 0 && m % 2 == 1) {
            lo = m + 1;
        } else {
            hi = m;
        }
    }
    proof {
        lemma_pow2_pos(j as nat);
        assert(d > 0) by (nonlinear_arith)
            requires
                d == b * pow2(j as nat),
                b > 0,
                pow2(j as nat) > 0,
        ;
        lemma_nearest(n, d, lo as int);
    }
    lo
}

/// Where the number stands that the root of `a * 2^i` rounds to.
fn round_root(a: u128, i: u32) -> (r: u32)
    requires
        i < 1000,
    ensures
        r == nearest_root(a * pow2(i as nat)),
        r <= INFINITE,
{
    let ghost k = a * pow2(i as nat);
    let mut lo: u32 = 0;
    let mut hi: u32 = INFINITE;
    while lo < hi
        invariant
            i < 1000,
            k == a * pow2(i as nat),
            lo <= hi <= INFINITE,
            lo > 0 ==> roots_past(k, lo - 1),
            hi < INFINITE ==> !roots_past(k, hi as int),
        decreases hi - lo,
    {
        let m: u32 = lo + (hi - lo) / 2;
        let s: u32 = scale_at(m);
        let g: u32 = digits_at(m);
        let twice: u128 = 2 * (g as u128) + 1;
        assert(twice * twice < 0x4000000 * 0x4000000) by (nonlinear_arith)
            requires
                twice < 0x4000000,
        ;
        let o: i8 = weigh_scaled(twice * twice, s + s, a, i + 2);
        proof {
            let p = pow2(s as nat);
            lemma_pow2_adds(s as nat, s as nat);
            lemma_pow2_unfold((i + 1) as nat);
            lemma_pow2_unfold((i + 2) as nat);
            assert((twice * p) * (twice * p) == (twice * twice) * (p * p)) by (nonlinear_arith);
            assert(4 * (a * pow2(i as nat)) == a * (2 * (2 * pow2(i as nat)))) by (nonlinear_arith);
        }
        if o < 0 || (o == 0 && m % 2 == 1) {
            lo = m + 1;
        } else {
            hi = m;
        }
    }
    proof {
        lemma_nearest_root(k, lo as int);
    }
    lo
}

fn scale_at(m: u32) -> (s: u32)
    ensures
        s == scale(m as int),
        s < 512,
{
    if m < HIDDEN {
        0
    } else {
        m / HIDDEN - 1
    }
}

fn digits_at(m: u32) -> (g: u32)
    ensures
        g == digits(m as int),
        g < 2 * HIDDEN,
        m >= HIDDEN ==> g >= HIDDEN,
{
    if m < HIDDEN {
        m
    } else {
        m % HIDDEN + HIDDEN
    }
}

/// A number far above another keeps its place when the other is added or
/// taken away.
proof fn lemma_absorbed(m: int, e: int, t: int)
    requires
        HIDDEN <= m < INFINITE,
        scale(m) >= 1,
        -pow2(scale(m)) < 4 * e < pow2(scale(m)),
        t == units(m) + e,
    ensures
        rounds_to(t, 1, m),
{
    let g = digits(m);
    let s = scale(m);
    let p = pow2(s) as int;
    assert((2 * g + 1) * p == 2 * (g * p) + p) by (nonlinear_arith);
    if scale(m - 1) == s {
        assert(digits(m - 1) == g - 1);
        assert((2 * (g - 1) + 1) * p == 2 * (g * p) - p) by (nonlinear_arith);
    } else {
        let h = HIDDEN as int;
        assert(scale(m - 1) == s - 1);
        assert(digits(m - 1) == 2 * h - 1);
        assert(g == h);
        lemma_pow2_unfold(s);
        let q = pow2((s - 1) as nat) as int;
        assert((2 * (2 * h - 1) + 1) * q == 2 * (h * (2 * q)) - q) by (nonlinear_arith);
    }
}

impl Single {
    pub open spec fn magnitude(self) -> int {
        (self.bits % SIGN) as int
    }

    pub open spec fn negative(self) -> bool {
        self.bits >= SIGN
    }

    pub open spec fn nan(self) -> bool {
        self.magnitude() > INFINITE
    }

    pub open spec fn infinite(self) -> bool {
        self.magnitude() == INFINITE
    }

    pub open spec fn finite(self) -> bool {
        self.magnitude() < INFINITE
    }

    /// What the number is, counted in the smallest number there is.
    pub open spec fn signed(self) -> int {
        if self.negative() {
            -units(self.magnitude())
        } else {
            units(self.magnitude())
        }
    }

    /// Where the number stands among the numbers, both zeros in one place.
    pub open spec fn rank(self) -> int {
        if self.negative() {
            -self.magnitude()
        } else {
            self.magnitude()
        }
    }

    /// Where the bit pattern stands in the order of all bit patterns, which
    /// puts the negative zero before the other and what is not a number at
    /// the two ends.
    pub open spec fn place(self) -> int {
        if self.negative() {
            -1 - self.magnitude()
        } else {
            self.magnitude()
        }
    }

    pub open spec fn of(negative: bool, m: int) -> Single {
        Single {
            bits: (m + if negative {
                SIGN as int
            } else {
                0
            }) as u32,
        }
    }

    pub open spec fn none() -> Single {
        Single { bits: NOT_A_NUMBER }
    }

    pub open spec fn below(self, other: Single) -> bool {
        !self.nan() && !other.nan() && self.rank() < other.rank()
    }

    pub open spec fn at_most(self, other: Single) -> bool {
        !self.nan() && !other.nan() && self.rank() <= other.rank()
    }

    pub open spec fn larger(self, other: Single) -> Single {
        if self.nan() || self.below(other) {
            other
        } else {
            self
        }
    }

    pub open spec fn smaller(self, other: Single) -> Single {
        if self.nan() || other.below(self) {
            other
        } else {
            self
        }
    }

    pub open spec fn within(self, low: Single, high: Single) -> Single {
        if self.below(low) {
            low
        } else if high.below(self) {
            high
        } else {
            self
        }
    }

    pub open spec fn product(self, other: Single) -> Single {
        let negative = self.negative() != other.negative();
        if self.nan() || other.nan() {
            Single::none()
        } else if self.infinite() || other.infinite() {
            if self.magnitude() == 0 || other.magnitude() == 0 {
                Single::none()
            } else {
                Single::of(negative, INFINITE as int)
            }
        } else {
            Single::of(
                negative,
                nearest(units(self.magnitude()) * units(other.magnitude()), pow2(149) as int),
            )
        }
    }

    pub open spec fn quotient(self, other: Single) -> Single {
        let negative = self.negative() != other.negative();
        if self.nan() || other.nan() {
            Single::none()
        } else if self.infinite() {
            if other.infinite() {
                Single::none()
            } else {
                Single::of(negative, INFINITE as int)
            }
        } else if other.infinite() {
            Single::of(negative, 0)
        } else if other.magnitude() == 0 {
            if self.magnitude() == 0 {
                Single::none()
            } else {
                Single::of(negative, INFINITE as int)
            }
        } else {
            Single::of(
                negative,
                nearest(units(self.magnitude()) * pow2(149), units(other.magnitude())),
            )
        }
    }

    pub open spec fn sum(self, other: Single) -> Single {
        if self.nan() || other.nan() {
            Single::none()
        } else if self.infinite() {
            if other.infinite() && self.negative() != other.negative() {
                Single::none()
            } else {
                self
            }
        } else if other.infinite() {
            other
        } else {
            let t = self.signed() + other.signed();
            if t == 0 {
                Single::of(self.negative() && other.negative(), 0)
            } else if t < 0 {
                Single::of(true, nearest(-t, 1))
            } else {
                Single::of(false, nearest(t, 1))
            }
        }
    }

    /// The square root.
    pub open spec fn square_root(self) -> Single {
        if self.magnitude() == 0 {
            self
        } else if self.nan() || self.negative() {
            Single::none()
        } else if self.infinite() {
            self
        } else {
            Single::of(false, nearest_root(units(self.magnitude()) * pow2(149)))
        }
    }

    pub open spec fn opposite(self) -> Single {
        Single::of(!self.negative(), self.magnitude())
    }

    /// The number nearest to a whole one.
    pub open spec fn whole(n: int) -> Single {
        Single::of(false, nearest(n * pow2(149), 1))
    }

    /// The whole part as a `u32`, held to what a `u32` can be.
    pub open spec fn cut(self) -> u32 {
        if self.nan() || self.negative() {
            0
        } else if self.infinite() {
            u32::MAX
        } else {
            let n = units(self.magnitude()) / (pow2(149) as int);
            if n > u32::MAX {
                u32::MAX
            } else {
                n as u32
            }
        }
    }

    /// The size as a whole number, the nearest one.
    pub open spec fn rounded_size(self) -> int {
        half_even(units(self.magnitude()), pow2(149) as int)
    }

    /// The nearest whole number as an `i32`, the one further from nought of
    /// two as near, held to what an `i32` can be.
    pub open spec fn grid(self) -> i32 {
        if self.nan() {
            0
        } else {
            let d = pow2(149) as int;
            let u = units(self.magnitude());
            let n = if self.infinite() {
                0x8000_0000
            } else if 2 * (u % d) >= d {
                u / d + 1
            } else {
                u / d
            };
            if self.negative() {
                if n >= 0x8000_0000 {
                    i32::MIN
                } else {
                    -n as i32
                }
            } else if n > i32::MAX {
                i32::MAX
            } else {
                n as i32
            }
        }
    }

    /// The size as a whole number, the first one that is not smaller.
    pub open spec fn raised_size(self) -> int {
        let n = units(self.magnitude());
        let d = pow2(149) as int;
        if n % d == 0 {
            n / d
        } else {
            n / d + 1
        }
    }

    fn size(self) -> (m: u32)
        ensures
            m == self.magnitude(),
            m < SIGN,
    {
        self.bits % SIGN
    }

    pub fn is_negative(self) -> (r: bool)
        ensures
            r == self.negative(),
    {
        self.bits >= SIGN
    }

    pub fn is_nan(self) -> (r: bool)
        ensures
            r == self.nan(),
    {
        self.size() > INFINITE
    }

    pub fn is_infinite(self) -> (r: bool)
        ensures
            r == self.infinite(),
    {
        self.size() == INFINITE
    }

    fn signed_as(negative: bool, m: u32) -> (r: Single)
        requires
            m < SIGN,
        ensures
            r == Single::of(negative, m as int),
    {
        if negative {
            Single { bits: m + SIGN }
        } else {
            Single { bits: m }
        }
    }

    /// `self < other`.
    pub fn lt(self, other: Single) -> (r: bool)
        ensures
            r == self.below(other),
    {
        let a: u32 = self.size();
        let b: u32 = other.size();
        if a > INFINITE || b > INFINITE {
            false
        } else if self.is_negative() {
            if other.is_negative() {
                b < a
            } else {
                a > 0 || b > 0
            }
        } else {
            !other.is_negative() && a < b
        }
    }

    /// `self <= other`.
    pub fn le(self, other: Single) -> (r: bool)
        ensures
            r == self.at_most(other),
    {
        !self.is_nan() && !other.is_nan() && !other.lt(self)
    }

    /// Whether the bit pattern stands before another's.
    pub fn stands_before(self, other: Single) -> (r: bool)
        ensures
            r == (self.place() < other.place()),
    {
        let a: u32 = self.size();
        let b: u32 = other.size();
        if self.is_negative() {
            !other.is_negative() || b < a
        } else {
            !other.is_negative() && a < b
        }
    }

    /// The larger of two numbers; the number of the two where one is none.
    pub fn max(self, other: Single) -> (r: Single)
        ensures
            r == self.larger(other),
    {
        if self.is_nan() || self.lt(other) {
            other
        } else {
            self
        }
    }

    /// The smaller of two numbers; the number of the two where one is none.
    pub fn min(self, other: Single) -> (r: Single)
        ensures
            r == self.smaller(other),
    {
        if self.is_nan() || other.lt(self) {
            other
        } else {
            self
        }
    }

    /// The number held between two others.
    pub fn clamp(self, low: Single, high: Single) -> (r: Single)
        ensures
            r == self.within(low, high),
    {
        if self.lt(low) {
            low
        } else if high.lt(self) {
            high
        } else {
            self
        }
    }

    /// The number nearest to a whole one.
    pub fn from_u32(n: u32) -> (r: Single)
        ensures
            r == Single::whole(n as int),
    {
        proof {
            vstd::arithmetic::power2::lemma2_to64();
        }
        let m: u32 = round(n as u128, 149, 1, 0);
        Single::signed_as(false, m)
    }

    /// The number nearest to a whole one.
    pub fn from_u64(n: u64) -> (r: Single)
        ensures
            r == Single::whole(n as int),
    {
        proof {
            vstd::arithmetic::power2::lemma2_to64();
        }
        let m: u32 = round(n as u128, 149, 1, 0);
        Single::signed_as(false, m)
    }

    /// `self * other`.
    pub fn times(self, other: Single) -> (r: Single)
        ensures
            r == self.product(other),
    {
        let negative = self.is_negative() != other.is_negative();
        let a: u32 = self.size();
        let b: u32 = other.size();
        if a > INFINITE || b > INFINITE {
            return Single { bits: NOT_A_NUMBER };
        }
        if a == INFINITE || b == INFINITE {
            return if a == 0 || b == 0 {
                Single { bits: NOT_A_NUMBER }
            } else {
                Single::signed_as(negative, INFINITE)
            };
        }
        let g: u32 = digits_at(a);
        let h: u32 = digits_at(b);
        let s: u32 = scale_at(a);
        let t: u32 = scale_at(b);
        assert(g * h <= 0x1000000 * 0x1000000) by (nonlinear_arith)
            requires
                0 <= g <= 0x1000000,
                0 <= h <= 0x1000000,
        ;
        let m: u32 = round(g as u128 * h as u128, s + t, 1, 149);
        proof {
            lemma_pow2_adds(s as nat, t as nat);
            assert((g * pow2(s as nat)) * (h * pow2(t as nat)) == (g * h) * (pow2(s as nat) * pow2(
                t as nat,
            ))) by (nonlinear_arith);
        }
        Single::signed_as(negative, m)
    }

    /// `self / other`.
    pub fn over(self, other: Single) -> (r: Single)
        ensures
            r == self.quotient(other),
    {
        let negative = self.is_negative() != other.is_negative();
        let a: u32 = self.size();
        let b: u32 = other.size();
        if a > INFINITE || b > INFINITE {
            return Single { bits: NOT_A_NUMBER };
        }
        if a == INFINITE {
            return if b == INFINITE {
                Single { bits: NOT_A_NUMBER }
            } else {
                Single::signed_as(negative, INFINITE)
            };
        }
        if b == INFINITE {
            return Single::signed_as(negative, 0);
        }
        if b == 0 {
            return if a == 0 {
                Single { bits: NOT_A_NUMBER }
            } else {
                Single::signed_as(negative, INFINITE)
            };
        }
        let g: u32 = digits_at(a);
        let h: u32 = digits_at(b);
        let s: u32 = scale_at(a);
        let t: u32 = scale_at(b);
        let m: u32 = round(g as u128, s + 149, h as u128, t);
        proof {
            lemma_pow2_adds(s as nat, 149);
            assert((g * pow2(s as nat)) * pow2(149) == g * (pow2(s as nat) * pow2(149)))
                by (nonlinear_arith);
        }
        Single::signed_as(negative, m)
    }

    /// `self + other`.
    pub fn plus(self, other: Single) -> (r: Single)
        ensures
            r == self.sum(other),
    {
        let a: u32 = self.size();
        let b: u32 = other.size();
        if a > INFINITE || b > INFINITE {
            return Single { bits: NOT_A_NUMBER };
        }
        if a == INFINITE {
            return if b == INFINITE && self.is_negative() != other.is_negative() {
                Single { bits: NOT_A_NUMBER }
            } else {
                self
            };
        }
        if b == INFINITE {
            return other;
        }
        if scale_at(a) >= scale_at(b) {
            plus_finer(self, other)
        } else {
            plus_finer(other, self)
        }
    }

    /// The square root.
    pub fn root(self) -> (r: Single)
        ensures
            r == self.square_root(),
    {
        let m: u32 = self.size();
        if m == 0 {
            return self;
        }
        if m > INFINITE || self.is_negative() {
            return Single { bits: NOT_A_NUMBER };
        }
        if m == INFINITE {
            return self;
        }
        let g: u32 = digits_at(m);
        let s: u32 = scale_at(m);
        proof {
            lemma_pow2_adds(s as nat, 149);
            assert((g * pow2(s as nat)) * pow2(149) == g * (pow2(s as nat) * pow2(149)))
                by (nonlinear_arith);
        }
        let r: u32 = round_root(g as u128, s + 149);
        Single::signed_as(false, r)
    }

    /// The nearest whole number as an `i32`, the one further from nought of
    /// two as near.
    pub fn to_grid(self) -> (r: i32)
        ensures
            r == self.grid(),
    {
        let m: u32 = self.size();
        if m > INFINITE {
            return 0;
        }
        proof {
            lemma_pow2_pos(149);
        }
        let n: u128 = if m == INFINITE {
            0x8000_0000
        } else {
            let (n, part) = split(m);
            match part {
                Part::Nought | Part::Less => n,
                Part::Half | Part::More => n + 1,
            }
        };
        if self.is_negative() {
            if n >= 0x8000_0000 {
                i32::MIN
            } else {
                -(n as i32)
            }
        } else if n > 0x7fff_ffff {
            i32::MAX
        } else {
            n as i32
        }
    }

    /// The nearest whole number as a `u32`, the larger of two as near; nothing
    /// below nought, and no more than a `u32` can be.
    pub open spec fn near(self) -> u32 {
        if self.nan() || self.negative() {
            0
        } else if self.infinite() {
            u32::MAX
        } else {
            let d = pow2(149) as int;
            let u = units(self.magnitude());
            let n = if 2 * (u % d) >= d {
                u / d + 1
            } else {
                u / d
            };
            if n > u32::MAX {
                u32::MAX
            } else {
                n as u32
            }
        }
    }

    /// The nearest whole number as a `u32`, the larger of two as near.
    pub fn round_u32(self) -> (r: u32)
        ensures
            r == self.near(),
    {
        let m: u32 = self.size();
        if m > INFINITE || self.is_negative() {
            return 0;
        }
        if m == INFINITE {
            return u32::MAX;
        }
        proof {
            lemma_pow2_pos(149);
        }
        let (n, part) = split(m);
        let whole: u128 = match part {
            Part::Nought | Part::Less => n,
            Part::Half | Part::More => n + 1,
        };
        if whole > 0xffff_ffff {
            u32::MAX
        } else {
            whole as u32
        }
    }

    /// The number with the other sign.
    pub fn negated(self) -> (r: Single)
        ensures
            r == self.opposite(),
    {
        Single::signed_as(!self.is_negative(), self.size())
    }

    /// `self - other`.
    pub fn minus(self, other: Single) -> (r: Single)
        ensures
            r == self.sum(other.opposite()),
    {
        self.plus(other.negated())
    }

    /// The whole part as a `u32`; nothing below nought, and no more than a
    /// `u32` can be.
    pub fn to_u32(self) -> (r: u32)
        ensures
            r == self.cut(),
    {
        let m: u32 = self.size();
        if m > INFINITE || self.is_negative() {
            return 0;
        }
        if m == INFINITE {
            return u32::MAX;
        }
        let (n, _) = split(m);
        if n > 0xffff_ffff {
            u32::MAX
        } else {
            n as u32
        }
    }

    /// The size as the nearest whole number, the even one of two as near.
    pub fn round_size(self) -> (r: u128)
        requires
            self.finite(),
        ensures
            r == self.rounded_size(),
    {
        proof {
            lemma_pow2_pos(149);
        }
        let (n, part) = split(self.size());
        match part {
            Part::More => n + 1,
            Part::Half => {
                if n % 2 == 0 {
                    n
                } else {
                    n + 1
                }
            },
            Part::Less | Part::Nought => n,
        }
    }

    /// The first whole number that is not smaller.
    pub open spec fn spec_ceil(self) -> Single {
        if !self.finite() {
            self
        } else if self.negative() {
            Single::of(true, nearest((units(self.magnitude()) / (pow2(149) as int)) * pow2(149), 1))
        } else {
            Single::of(false, nearest(self.raised_size() * pow2(149), 1))
        }
    }

    /// The first whole number that is not smaller.
    pub fn ceil(self) -> (r: Single)
        ensures
            r == self.spec_ceil(),
    {
        let m: u32 = self.size();
        if m >= INFINITE {
            return self;
        }
        proof {
            vstd::arithmetic::power2::lemma2_to64();
        }
        if self.is_negative() {
            let (n, _) = split(m);
            let k: u32 = round(n, 149, 1, 0);
            Single::signed_as(true, k)
        } else {
            let k: u32 = round(self.raise_size(), 149, 1, 0);
            Single::signed_as(false, k)
        }
    }

    /// The size as the first whole number that is not smaller.
    pub fn raise_size(self) -> (r: u128)
        requires
            self.finite(),
        ensures
            r == self.raised_size(),
    {
        let (n, part) = split(self.size());
        match part {
            Part::Nought => n,
            Part::Less | Part::Half | Part::More => n + 1,
        }
    }
}

impl Single {
    /// So many times the number, to the nearest whole one and the even one of
    /// two as near; none for a negative number or where the number alone is
    /// more than a `u64` can count.
    pub open spec fn spec_scaled(self, by: int) -> Option<int> {
        let n = units(self.magnitude());
        if !self.finite() || (self.negative() && self.magnitude() != 0) || n
            >= 0x1_0000_0000_0000_0000int * pow2(149) {
            None
        } else {
            Some(half_even(n * by, pow2(149) as int))
        }
    }

    /// So many times the number, to the nearest whole one.
    pub fn scaled(self, by: u32) -> (r: Option<u128>)
        requires
            by <= 0x4000_0000,
        ensures
            match r {
                Some(n) => self.spec_scaled(by as int) == Some(n as int),
                None => self.spec_scaled(by as int) is None,
            },
    {
        let m: u32 = self.size();
        if m >= INFINITE || (self.is_negative() && m != 0) {
            return None;
        }
        let s: u32 = scale_at(m);
        let g: u32 = digits_at(m);
        let ghost d = pow2(149) as int;
        proof {
            lemma_pow2_pos(149);
            lemma_pow2_pos(s as nat);
        }
        if s >= 149 {
            let k: u32 = s - 149;
            proof {
                lemma_pow2_adds(k as nat, 149);
                assert(units(m as int) == (g * pow2(k as nat)) * d) by (nonlinear_arith)
                    requires
                        units(m as int) == g * pow2(s as nat),
                        pow2(s as nat) == pow2(k as nat) * d,
                ;
            }
            let small = k < 64;
            let p: u128 = if small {
                power(k)
            } else {
                1
            };
            proof {
                if small {
                    vstd::arithmetic::power2::lemma2_to64_rest();
                    lemma_pow2_strictly_increases(k as nat, 64);
                }
                assert(g * p <= 0x100_0000 * 0x1_0000_0000_0000_0000) by (nonlinear_arith)
                    requires
                        0 <= g <= 0x100_0000,
                        0 <= p <= 0x1_0000_0000_0000_0000,
                ;
            }
            let whole: u128 = g as u128 * p;
            if !small || whole >= 0x1_0000_0000_0000_0000 {
                proof {
                    vstd::arithmetic::power2::lemma2_to64();
                    vstd::arithmetic::power2::lemma2_to64_rest();
                    if k > 64 {
                        lemma_pow2_strictly_increases(64, k as nat);
                    }
                    assert(g * pow2(k as nat) >= 0x1_0000_0000_0000_0000) by (nonlinear_arith)
                        requires
                            g * pow2(k as nat) >= 0x1_0000_0000_0000_0000 || (g >= 1 && pow2(
                                k as nat,
                            ) >= 0x1_0000_0000_0000_0000),
                    ;
                    assert((g * pow2(k as nat)) * d >= 0x1_0000_0000_0000_0000 * d)
                        by (nonlinear_arith)
                        requires
                            g * pow2(k as nat) >= 0x1_0000_0000_0000_0000,
                            d > 0,
                    ;
                }
                return None;
            }
            proof {
                assert(whole * d < 0x1_0000_0000_0000_0000 * d) by (nonlinear_arith)
                    requires
                        whole < 0x1_0000_0000_0000_0000,
                        d > 0,
                ;
                assert(whole * by <= 0x1_0000_0000_0000_0000 * 0x4000_0000) by (nonlinear_arith)
                    requires
                        0 <= whole < 0x1_0000_0000_0000_0000,
                        0 <= by <= 0x4000_0000,
                ;
                assert((whole * d) * by == (whole * by) * d) by (nonlinear_arith);
                vstd::arithmetic::div_mod::lemma_fundamental_div_mod_converse(
                    (whole * by) * d,
                    d,
                    whole * by,
                    0,
                );
            }
            return Some(whole * by as u128);
        }
        let k: u32 = 149 - s;
        assert(g * by <= 0x100_0000 * 0x4000_0000) by (nonlinear_arith)
            requires
                0 <= g <= 0x100_0000,
                0 <= by <= 0x4000_0000,
        ;
        let n: u128 = g as u128 * by as u128;
        proof {
            lemma_pow2_adds(k as nat, s as nat);
            lemma_pow2_pos(k as nat);
            assert((g * pow2(s as nat)) * by == n * pow2(s as nat)) by (nonlinear_arith)
                requires
                    n == g * by,
            ;
            assert(g * pow2(s as nat) < 0x1_0000_0000_0000_0000 * d) by (nonlinear_arith)
                requires
                    0 <= g <= 0x100_0000,
                    d == pow2(k as nat) * pow2(s as nat),
                    pow2(k as nat) >= 1,
                    pow2(s as nat) >= 1,
            ;
            lemma_scaled_parts(n as int, pow2(k as nat) as int, pow2(s as nat) as int);
        }
        if k >= 100 {
            proof {
                vstd::arithmetic::power2::lemma2_to64();
                vstd::arithmetic::power2::lemma2_to64_rest();
                lemma_pow2_strictly_increases(60, k as nat);
                vstd::arithmetic::div_mod::lemma_fundamental_div_mod_converse(
                    n as int,
                    pow2(k as nat) as int,
                    0,
                    n as int,
                );
            }
            return Some(0);
        }
        let p: u128 = power(k);
        let q: u128 = n / p;
        let r: u128 = n % p;
        proof {
            lemma_pow2_strictly_increases(k as nat, 100);
            lemma_pow2_adds(50, 50);
            vstd::arithmetic::power2::lemma2_to64();
            vstd::arithmetic::power2::lemma2_to64_rest();
            assert(pow2(100) == 0x400_0000_0000_00 * 0x400_0000_0000_00);
        }
        if 2 * r < p || (2 * r == p && q % 2 == 0) {
            Some(q)
        } else {
            Some(q + 1)
        }
    }
}

/// How what is left of a number above its whole part stands to a half.
#[derive(Clone, Copy)]
enum Part {
    Nought,
    Less,
    Half,
    More,
}

spec fn part_of(r: int, d: int) -> Part {
    if r == 0 {
        Part::Nought
    } else if 2 * r < d {
        Part::Less
    } else if 2 * r == d {
        Part::Half
    } else {
        Part::More
    }
}

/// The whole part of the number at `m`, and what is left.
fn split(m: u32) -> (r: (u128, Part))
    requires
        m < INFINITE,
    ensures
        r.0 == units(m as int) / (pow2(149) as int),
        r.1 == part_of(units(m as int) % (pow2(149) as int), pow2(149) as int),
        r.0 < u128::MAX,
{
    let s: u32 = scale_at(m);
    let g: u32 = digits_at(m);
    if s >= 149 {
        let k: u32 = s - 149;
        assert(k <= 104) by {
            assert(m / HIDDEN < 255);
        }
        let p: u128 = power(k);
        proof {
            lemma_pow2_adds(k as nat, 149);
            lemma_pow2_pos(149);
            assert(g * (pow2(k as nat) * pow2(149)) == (g * pow2(k as nat)) * pow2(149))
                by (nonlinear_arith);
            vstd::arithmetic::div_mod::lemma_fundamental_div_mod_converse(
                units(m as int),
                pow2(149) as int,
                g * pow2(k as nat),
                0,
            );
            if k < 104 {
                lemma_pow2_strictly_increases(k as nat, 104);
            }
            lemma_pow2_adds(52, 52);
            vstd::arithmetic::power2::lemma2_to64();
            vstd::arithmetic::power2::lemma2_to64_rest();
            assert(pow2(104) == 0x100000000000000000000000000);
            assert(g * p <= 0xffffff * 0x100000000000000000000000000) by (nonlinear_arith)
                requires
                    0 <= g <= 0xffffff,
                    0 < p <= 0x100000000000000000000000000,
            ;
        }
        (g as u128 * p, Part::Nought)
    } else {
        let k: u32 = 149 - s;
        proof {
            lemma_pow2_adds(k as nat, s as nat);
            lemma_pow2_pos(k as nat);
            lemma_pow2_pos(s as nat);
        }
        if k >= 30 {
            proof {
                lemma_small_part(g as int, k as nat, s as nat);
            }
            if g == 0 {
                (0, Part::Nought)
            } else {
                (0, Part::Less)
            }
        } else {
            let p: u128 = power(k);
            let n: u128 = g as u128 / p;
            let r: u128 = g as u128 % p;
            proof {
                vstd::arithmetic::power2::lemma2_to64();
                lemma_pow2_strictly_increases(k as nat, 32);
                lemma_scaled_parts(g as int, p as int, pow2(s as nat) as int);
            }
            if r == 0 {
                (n, Part::Nought)
            } else if 2 * r < p {
                (n, Part::Less)
            } else if 2 * r == p {
                (n, Part::Half)
            } else {
                (n, Part::More)
            }
        }
    }
}

/// Whole part and remainder of a quotient whose two terms carry one factor.
proof fn lemma_scaled_parts(g: int, p: int, f: int)
    requires
        g >= 0,
        p > 0,
        f > 0,
    ensures
        (g * f) / (p * f) == g / p,
        (g * f) % (p * f) == (g % p) * f,
        part_of((g % p) * f, p * f) == part_of(g % p, p),
{
    let q = g / p;
    let r = g % p;
    vstd::arithmetic::div_mod::lemma_fundamental_div_mod(g, p);
    assert(g * f == q * (p * f) + r * f) by (nonlinear_arith)
        requires
            g == p * q + r,
    ;
    assert(0 <= r * f < p * f) by (nonlinear_arith)
        requires
            0 <= r < p,
            f > 0,
    ;
    vstd::arithmetic::div_mod::lemma_fundamental_div_mod_converse(g * f, p * f, q, r * f);
    lemma_sign_scaled(2 * r - p, f);
    lemma_sign_scaled(r, f);
    assert((2 * r - p) * f == 2 * (r * f) - p * f) by (nonlinear_arith);
}

proof fn lemma_small_part(g: int, k: nat, s: nat)
    requires
        0 <= g < 2 * HIDDEN,
        k >= 30,
        pow2(k + s) == pow2(k) * pow2(s),
    ensures
        (g * pow2(s)) / (pow2(k + s) as int) == 0,
        part_of((g * pow2(s)) % (pow2(k + s) as int), pow2(k + s) as int) == if g == 0 {
            Part::Nought
        } else {
            Part::Less
        },
{
    vstd::arithmetic::power2::lemma2_to64();
    if k > 30 {
        lemma_pow2_strictly_increases(30, k);
    }
    lemma_pow2_pos(s);
    lemma_scaled_parts(g, pow2(k) as int, pow2(s) as int);
    vstd::arithmetic::div_mod::lemma_fundamental_div_mod_converse(g, pow2(k) as int, 0, g);
}

/// `x + y`, where the numbers lie no closer together at `x` than at `y`.
fn plus_finer(x: Single, y: Single) -> (r: Single)
    requires
        x.finite(),
        y.finite(),
        scale(x.magnitude()) >= scale(y.magnitude()),
    ensures
        r == x.sum(y),
        r == y.sum(x),
{
    let a: u32 = x.size();
    let b: u32 = y.size();
    let g: u32 = digits_at(a);
    let h: u32 = digits_at(b);
    let s: u32 = scale_at(a);
    let t: u32 = scale_at(b);
    let k: u32 = s - t;
    proof {
        lemma_pow2_pos(t as nat);
        lemma_pow2_adds(k as nat, t as nat);
        vstd::arithmetic::power2::lemma2_to64();
        vstd::arithmetic::power2::lemma2_to64_rest();
    }
    if k > 60 {
        proof {
            let e = units(b as int);
            lemma_pow2_strictly_increases(60, k as nat);
            assert(4 * (h * pow2(t as nat)) < pow2(k as nat) * pow2(t as nat)) by (nonlinear_arith)
                requires
                    0 <= h <= 0x1000000,
                    pow2(t as nat) > 0,
                    pow2(k as nat) > 0x10000000000,
            ;
            assert(e >= 0) by (nonlinear_arith)
                requires
                    e == h * pow2(t as nat),
                    h >= 0,
                    pow2(t as nat) > 0,
            ;
            lemma_absorbed(a as int, e, units(a as int) + e);
            lemma_absorbed(a as int, -e, units(a as int) - e);
            lemma_nearest(units(a as int) + e, 1, a as int);
            lemma_nearest(units(a as int) - e, 1, a as int);
            lemma_pow2_pos(s as nat);
            assert(units(a as int) >= pow2(s as nat)) by (nonlinear_arith)
                requires
                    units(a as int) == g * pow2(s as nat),
                    g >= 1,
                    pow2(s as nat) > 0,
            ;
        }
        return x;
    }
    let p: u128 = power(k);
    proof {
        if k < 60 {
            lemma_pow2_strictly_increases(k as nat, 60);
        }
        assert(g * p <= 0x1000000 * 0x1000000000000000) by (nonlinear_arith)
            requires
                0 <= g <= 0x1000000,
                0 < p <= 0x1000000000000000,
        ;
        assert(units(a as int) == (g * p) * pow2(t as nat)) by (nonlinear_arith)
            requires
                units(a as int) == g * pow2(s as nat),
                pow2(s as nat) == p * pow2(t as nat),
        ;
    }
    let c: u128 = g as u128 * p;
    let d: u128 = h as u128;
    let ghost f = pow2(t as nat) as int;
    proof {
        assert(c * f + d * f == (c + d) * f) by (nonlinear_arith);
        assert(c * f - d * f == (c - d) * f) by (nonlinear_arith);
        assert(d * f - c * f == (d - c) * f) by (nonlinear_arith);
        lemma_sign_scaled(c + d, f);
        lemma_sign_scaled(c - d, f);
        lemma_sign_scaled(d - c, f);
    }
    let (total, negative): (u128, bool) = if x.is_negative() == y.is_negative() {
        (c + d, x.is_negative())
    } else if c >= d {
        (c - d, x.is_negative())
    } else {
        (d - c, y.is_negative())
    };
    if total == 0 {
        return Single::signed_as(x.is_negative() && y.is_negative(), 0);
    }
    let m: u32 = round(total, t, 1, 0);
    Single::signed_as(negative, m)
}

} // verus!
