//! Where on the four-beat axis a running curve stands.

use vstd::prelude::*;
use crate::geometry::{UNITS, X_MAX};

verus! {

/// The length of one beat at 120 beats per minute, in milliseconds.
pub const MS_PER_BEAT: i64 = 500;

/// The beat position after `elapsed_ms` milliseconds at 120 beats per
/// minute, wrapping round every four beats. Time that runs backwards gives
/// the mirrored, negative position, which no curve has a value for.
pub open spec fn spec_beat_position(elapsed_ms: int) -> int {
    if elapsed_ms >= 0 {
        (elapsed_ms * UNITS / MS_PER_BEAT as int) % (X_MAX as int)
    } else {
        -((-elapsed_ms * UNITS / MS_PER_BEAT as int) % (X_MAX as int))
    }
}

/// Computes [`spec_beat_position`].
pub fn beat_position(elapsed_ms: i64) -> (x: i64)
    ensures
        x == spec_beat_position(elapsed_ms as int),
        elapsed_ms >= 0 ==> 0 <= x < X_MAX,
        elapsed_ms < 0 ==> -X_MAX < x <= 0,
{
    let scaled: i128 = (elapsed_ms as i128) * (UNITS as i128) / (MS_PER_BEAT as i128);
    let wrapped: i128 = scaled % (X_MAX as i128);
    wrapped as i64
}

} // verus!
