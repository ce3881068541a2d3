//! The delay before queued forwards are released.
//!
//! The delay is drawn at random, so that the time a forward takes says little about the
//! channels it went through.

use rand::Rng;
use vstd::prelude::*;

verus! {

/// Why no delay can be drawn.
#[derive(Clone, Copy, Debug, PartialEq, Eq, Structural)]
pub enum DelayError {
    /// The least delay is zero: there is nothing between zero and five times zero.
    EmptyRange,
    /// Five times the least delay does not fit the machine's numbers.
    Overflow,
}

/// Calls `Rng::gen_range` of `rand` on the thread's generator: a number from `low` up to,
/// but not including, `high`. `gen_range` stops with a panic unless `low` is below `high`.
#[verifier::external_body]
fn draw(low: u64, high: u64) -> (drawn: u64)
    requires
        low < high,
    ensures
        low <= drawn < high,
{
    rand::thread_rng().gen_range(low, high)
}

/// The bounds between which the delay is drawn: from the least delay up to, but not
/// including, five times the least delay.
pub fn delay_bounds(min_delay_ms: u64) -> (bounds: Result<(u64, u64), DelayError>)
    ensures
        min_delay_ms == 0 ==> bounds == Err::<(u64, u64), DelayError>(DelayError::EmptyRange),
        min_delay_ms > 0 && 5 * min_delay_ms > u64::MAX ==> bounds == Err::<(u64, u64), DelayError>(
            DelayError::Overflow,
        ),
        min_delay_ms > 0 && 5 * min_delay_ms <= u64::MAX ==> bounds == Ok::<(u64, u64), DelayError>(
            (min_delay_ms, (5 * min_delay_ms) as u64),
        ),
{
    if min_delay_ms == 0 {
        return Err(DelayError::EmptyRange);
    }
    match min_delay_ms.checked_mul(5) {
        Some(high) => Ok((min_delay_ms, high)),
        None => Err(DelayError::Overflow),
    }
}

/// Draws the delay, in milliseconds, after which queued forwards are released.
pub fn forward_delay(min_delay_ms: u64) -> (delay: Result<u64, DelayError>)
    ensures
        min_delay_ms == 0 ==> delay == Err::<u64, DelayError>(DelayError::EmptyRange),
        min_delay_ms > 0 && 5 * min_delay_ms > u64::MAX ==> delay == Err::<u64, DelayError>(
            DelayError::Overflow,
        ),
        min_delay_ms > 0 && 5 * min_delay_ms <= u64::MAX ==> (delay matches Ok(ms) && min_delay_ms
            <= ms < 5 * min_delay_ms),
{
    match delay_bounds(min_delay_ms) {
        Ok((low, high)) => Ok(draw(low, high)),
        Err(fault) => Err(fault),
    }
}

} // verus!
