//! The wall clock.

use vstd::prelude::*;

verus! {

/// A point in time of the system clock.
#[verifier::external_type_specification]
#[verifier::external_body]
pub struct ExSystemTime(std::time::SystemTime);

/// What a point in time holds: its nanoseconds since the Unix epoch,
/// negative before it.
pub uninterp spec fn epoch_nanos(time: std::time::SystemTime) -> int;

/// What a span of time holds: its nanoseconds.
pub uninterp spec fn span_nanos(span: std::time::Duration) -> int;

/// The time stamp of a point in time: the whole milliseconds since the Unix
/// epoch, zero before it. Of a number too large for 64 bits the low 64 stay.
pub open spec fn stamp(nanos: int) -> u64 {
    if nanos < 0 {
        0
    } else {
        ((nanos / 1_000_000) % 0x1_0000_0000_0000_0000) as u64
    }
}

/// `SystemTime::now`: whatever the clock shows, of which nothing is claimed.
#[verifier::external_body]
fn clock() -> (now: std::time::SystemTime)
{
    std::time::SystemTime::now()
}

/// `SystemTime::duration_since` the Unix epoch: the time elapsed since then,
/// nothing for a point in time before it.
#[verifier::external_body]
fn since_epoch(time: std::time::SystemTime) -> (span: Option<std::time::Duration>)
    ensures
        match span {
            Some(s) => epoch_nanos(time) >= 0 && span_nanos(s) == epoch_nanos(time),
            None => epoch_nanos(time) < 0,
        },
{
    time.duration_since(std::time::UNIX_EPOCH).ok()
}

/// `Duration::as_millis`: the number of whole milliseconds in a span.
#[verifier::external_body]
fn millis(span: std::time::Duration) -> (ms: u128)
    ensures
        ms == span_nanos(span) / 1_000_000,
{
    span.as_millis()
}

/// The time stamp of a point in time.
pub fn stamp_ms(time: std::time::SystemTime) -> (ms: u64)
    ensures
        ms == stamp(epoch_nanos(time)),
{
    match since_epoch(time) {
        Some(span) => {
            let whole: u128 = millis(span);
            assert(whole as u64 == whole % 0x1_0000_0000_0000_0000) by (bit_vector);
            #[verifier::truncate]
            let ms: u64 = whole as u64;
            ms
        },
        None => 0,
    }
}

/// Milliseconds since the Unix epoch, zero before it: the time stamp of what
/// the clock shows. Which point in time that is, only the clock decides.
pub fn now_ms() -> (ms: u64)
    ensures
        exists|time: std::time::SystemTime| ms == stamp(#[trigger] epoch_nanos(time)),
{
    stamp_ms(clock())
}

/// A time stamp is the number of whole milliseconds that have passed since
/// the epoch, and nothing before it. It starts again at zero only once 64 bits
/// are used up.
pub proof fn stamps_count_whole_milliseconds(nanos: int)
    ensures
        nanos < 0 ==> stamp(nanos) == 0,
        0 <= nanos < 1_000_000 * 0x1_0000_0000_0000_0000 ==> stamp(nanos) * 1_000_000 <= nanos < (
        stamp(nanos) + 1) * 1_000_000,
        nanos >= 0 ==> stamp(nanos + 1_000_000 * 0x1_0000_0000_0000_0000) == stamp(nanos),
{
}

}
