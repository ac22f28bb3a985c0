use ac_client::clock::{lately, seconds, since, span_of, SECOND};
use ac_client::place::{about, spot, Point, Spot};
use ac_client::single::Single;
use ac_client::text::{
    contains, count, hex4, is_blank, join, same_fold, show, split, stands_first, trim,
};
use std::time::Duration;

fn single(x: f32) -> Single {
    Single { bits: x.to_bits() }
}

fn number(x: Single) -> f32 {
    f32::from_bits(x.bits)
}

/// Numbers of every kind: the edges, and a spread of bit patterns.
fn numbers() -> Vec<f32> {
    let mut v = vec![
        0.0,
        -0.0,
        1.0,
        -1.0,
        0.5,
        1.5,
        2.5,
        0.1,
        0.3,
        1e20,
        -1e20,
        8_388_607.5,
        16_777_216.0,
        4_294_967_296.0,
        f32::MIN_POSITIVE,
        f32::from_bits(1),
        f32::MAX,
        f32::MIN,
        f32::INFINITY,
        f32::NEG_INFINITY,
        f32::NAN,
    ];
    let mut seed: u32 = 0x1234_5678;
    for _ in 0..160 {
        seed = seed.wrapping_mul(1_664_525).wrapping_add(1_013_904_223);
        v.push(f32::from_bits(seed));
        v.push((seed >> 8) as f32 / 977.0);
    }
    v
}

fn agree(got: Single, want: f32, what: &str) {
    assert!(
        (number(got).is_nan() && want.is_nan()) || got.bits == want.to_bits(),
        "{what}: {:#x} for {:#x}",
        got.bits,
        want.to_bits()
    );
}

#[test]
fn arithmetic_is_the_machines_bit_for_bit() {
    let v = numbers();
    for &a in &v {
        for &b in &v {
            let (x, y) = (single(a), single(b));
            agree(x.times(y), a * b, &format!("{a} * {b}"));
            agree(x.over(y), a / b, &format!("{a} / {b}"));
            agree(x.plus(y), a + b, &format!("{a} + {b}"));
            agree(x.minus(y), a - b, &format!("{a} - {b}"));
            assert_eq!(x.lt(y), a < b, "{a} < {b}");
            assert_eq!(x.le(y), a <= b, "{a} <= {b}");
            assert_eq!(x.stands_before(y), a.total_cmp(&b).is_lt(), "{a} before {b}");
            if a != b || a.to_bits() == b.to_bits() {
                agree(x.max(y), a.max(b), &format!("max {a} {b}"));
                agree(x.min(y), a.min(b), &format!("min {a} {b}"));
            }
        }
    }
}

#[test]
fn rounding_is_the_machines() {
    for a in numbers() {
        let x = single(a);
        agree(x.root(), a.sqrt(), &format!("root of {a}"));
        agree(x.negated(), -a, &format!("-{a}"));
        agree(x.ceil(), a.ceil(), &format!("ceil {a}"));
        assert_eq!(x.to_u32(), a as u32, "{a} as u32");
        assert_eq!(x.to_grid(), a.round() as i32, "{a} rounded to i32");
        assert_eq!(x.round_u32(), a.round() as u32, "{a} rounded to u32");
        assert_eq!(x.is_nan(), a.is_nan());
        assert_eq!(x.is_infinite(), a.is_infinite());
        if a.abs() < 1e30 {
            assert_eq!(show(x), format!("{a:.0}"), "{a} shown");
        }
        let (low, high) = (single(-3.0), single(7.25));
        agree(x.clamp(low, high), a.clamp(-3.0, 7.25), &format!("clamp {a}"));
        let span = Duration::try_from_secs_f32(a).ok().map(|d| d.as_nanos());
        assert_eq!(span_of(x), span, "{a} seconds");
    }
    for n in [0u32, 1, 9_000, 16_777_217, 33_554_435, u32::MAX - 1, u32::MAX] {
        agree(Single::from_u32(n), n as f32, "a whole number");
        agree(Single::from_u64(u64::from(n) * 977), (u64::from(n) * 977) as f32, "a large one");
    }
}

#[test]
fn spans_are_counted_in_seconds_as_the_clock_does() {
    for ns in [0u64, 1, 999_999_999, SECOND, 61 * SECOND + 5, 900 * SECOND, u64::MAX] {
        agree(seconds(ns), Duration::from_nanos(ns).as_secs_f32(), "seconds");
    }
    assert_eq!(since(5, 9), 0, "a moment that is still to come");
    assert!(lately(Some(5), 8, 4) && !lately(Some(5), 9, 4) && !lately(None, 9, 4));
}

#[test]
fn places_are_measured_and_told() {
    let at = |x: f32, y: f32| Spot {
        x: single(x),
        y: single(y),
    };
    assert_eq!(number(at(0.0, 0.0).away(at(3.0, 4.0))), 5.0);
    let p = |x: f32, y: f32, z: f32| Point {
        x: single(x),
        y: single(y),
        z: single(z),
    };
    assert_eq!(number(p(0.0, 0.0, 0.0).away(p(2.0, 3.0, 6.0))), 7.0);
    assert_eq!(p(1.0, 2.0, 3.0).flat(), at(1.0, 2.0));
    assert_eq!(spot(at(32_587.2, 34_578.5)), (32_587, 34_579));
    assert!(about(single(224.0)).ends_with(" m"));
}

#[test]
fn texts_are_read_and_written() {
    assert_eq!(count(0), "0");
    assert_eq!(count(u128::MAX), u128::MAX.to_string());
    assert_eq!(hex4(0x1f6), "01f6");
    assert_eq!(trim("\u{a0} a b \n"), "a b");
    assert!(is_blank(" \t") && !is_blank(" x"));
    assert!(contains("lead scarab", "d s") && contains("x", "") && !contains("", "x"));
    assert!(same_fold("Prismatic", "pRISMATIC") && !same_fold("\u{c4}", "\u{e4}"));
    assert!(stands_first("Ab", "b") && stands_first("a", "ab") && !stands_first("a", "a"));
    assert_eq!(join(&["a", "b", "c"], 2, ", "), "a, b");
    assert_eq!(split("a//b", '/'), vec!["a", "", "b"]);
    assert_eq!(split("", '/'), vec![""]);
}
