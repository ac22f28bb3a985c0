//! Logging characters off on the way out.
//!
//! A disconnect is the connection going away, which the server ends as an
//! abrupt stop. The game's own logout is a message, and the server acts on it
//! when it gets to it. So characters are logged off first, and disconnected once
//! the server says each is gone or a short wait is up.

use crate::clock::{seconds, since, spec_seconds, spec_since, Moment, Span, SECOND};
use crate::single::Single;
use vstd::prelude::*;

verus! {

/// How long to wait for the server to finish logging characters off before
/// disconnecting anyway. A client that will not close is worse than one that
/// closes a moment early.
pub const LOG_OFF_WAIT: Span = 3 * SECOND;

/// How long to sleep between two looks at the sessions, in nanoseconds.
pub const LOOK_EVERY: Span = 50_000_000;

/// What is done next on the way out.
#[derive(Clone, Copy, Debug, PartialEq, Eq, Structural)]
pub enum LogOff {
    /// Sleep this long, then let every session tick.
    Sleep(Span),
    /// Disconnect every session.
    Disconnect,
}

/// Whether everyone is logged off.
pub open spec fn all_off(off: Seq<bool>) -> bool {
    forall|i: int| 0 <= i < off.len() ==> #[trigger] off[i]
}

/// Every character was told to log off at `start`; `off` says which the server
/// has finished with. Their sessions are kept ticking until it has finished with
/// each or the wait is up, and are then disconnected.
pub fn log_off_all(start: Moment, now: Moment, wait: Span, off: &[bool]) -> (r: LogOff)
    ensures
        r == if spec_since(now, start) < wait && !all_off(off@) {
            LogOff::Sleep(LOOK_EVERY)
        } else {
            LogOff::Disconnect
        },
        r is Disconnect <==> now >= start + wait || wait == 0 || forall|i: int|
            0 <= i < off@.len() ==> #[trigger] off@[i],
        r is Sleep ==> r == LogOff::Sleep(50_000_000),
{
    if since(now, start) >= wait {
        return LogOff::Disconnect;
    }
    let mut i: usize = 0;
    while i < off.len()
        invariant
            i <= off.len(),
            spec_since(now, start) < wait,
            forall|k: int| 0 <= k < i ==> #[trigger] off@[k],
        decreases off.len() - i,
    {
        if !off[i] {
            assert(!off@[i as int]);
            return LogOff::Sleep(LOOK_EVERY);
        }
        i = i + 1;
    }
    LogOff::Disconnect
}

/// How long a session ticks for, in seconds, after a sleep.
pub fn tick_length(last: Moment, now: Moment) -> (r: Single)
    ensures
        r == spec_seconds(spec_since(now, last)),
{
    seconds(since(now, last))
}

} // verus!
