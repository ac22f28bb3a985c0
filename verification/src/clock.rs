//! Moments and spans of time, in nanoseconds.

use crate::single::Single;
use vstd::prelude::*;

verus! {

/// A moment, in nanoseconds from one that all are counted from.
pub type Moment = u64;

/// A span of time, in nanoseconds.
pub type Span = u64;

/// One second.
pub const SECOND: u64 = 1_000_000_000;

/// One minute.
pub const MINUTE: u64 = 60_000_000_000;

/// How long after `then` it is, nothing where it is not yet.
pub open spec fn spec_since(now: Moment, then: Moment) -> Span {
    if now >= then {
        (now - then) as u64
    } else {
        0
    }
}

/// How long after `then` it is, nothing where it is not yet.
pub fn since(now: Moment, then: Moment) -> (r: Span)
    ensures
        r == spec_since(now, then),
{
    if now >= then {
        now - then
    } else {
        0
    }
}

/// Less than `span` has passed since `then`, which there may not have been.
pub open spec fn spec_lately(then: Option<Moment>, now: Moment, span: Span) -> bool {
    then is Some && spec_since(now, then->0) < span
}

/// Whether less than `span` has passed since `then`, which there may not have
/// been.
pub fn lately(then: Option<Moment>, now: Moment, span: Span) -> (r: bool)
    ensures
        r == spec_lately(then, now, span),
{
    match then {
        Some(t) => since(now, t) < span,
        None => false,
    }
}

/// A thousand million, as a number.
pub const THOUSAND_MILLION: u32 = 0x4e6e_6b28;

/// A span in seconds, as a number.
pub open spec fn spec_seconds(span: Span) -> Single {
    Single::whole((span / SECOND) as int).sum(
        Single::whole((span % SECOND) as int).quotient(Single { bits: THOUSAND_MILLION }),
    )
}

/// A span in seconds, as a number.
pub fn seconds(span: Span) -> (r: Single)
    ensures
        r == spec_seconds(span),
{
    let whole = Single::from_u64(span / SECOND);
    let part = Single::from_u64(span % SECOND).over(Single { bits: THOUSAND_MILLION });
    whole.plus(part)
}

/// A number of seconds as a span, to the nearest nanosecond; none where it is
/// less than nothing, no number, or more seconds than can be counted.
pub open spec fn spec_span_of(x: Single) -> Option<int> {
    x.spec_scaled(SECOND as int)
}

/// A number of seconds as a span, to the nearest nanosecond; none where it is
/// less than nothing, no number, or more seconds than can be counted.
pub fn span_of(x: Single) -> (r: Option<u128>)
    ensures
        match r {
            Some(n) => spec_span_of(x) == Some(n as int),
            None => spec_span_of(x) is None,
        },
{
    x.scaled(SECOND as u32)
}

} // verus!
