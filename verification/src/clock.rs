//! Wall-clock access: the current time and local-time rendering of epoch
//! timestamps. Both depend on the machine (its clock, its time zone), so
//! nothing is promised of what they return.
use vstd::prelude::*;

use chrono::{Local, TimeZone};

verus! {

/// The strftime patterns the library renders local times with; each is
/// made of valid chrono items only, so rendering cannot fail.
pub open spec fn rendered_pattern(p: Seq<char>) -> bool {
    p == "%Y-%m-%d-%H%M%S"@ || p == "%Y-%m-%d"@ || p == "%Y-%m"@
}

/// `chrono::Local::timestamp_opt(secs, nanos).single()` rendered with
/// `DelayedFormat::to_string` under the strftime `pattern`; `None` when the
/// local time is ambiguous or out of range. `to_string` panics on a
/// pattern with an invalid item, so only the library's fixed, valid
/// patterns are admitted. The result depends on the machine's time zone,
/// so no clause ties it to the arguments.
#[verifier::external_body]
pub(crate) fn local_format(secs: i64, nanos: u32, pattern: &str) -> Option<String>
    requires
        rendered_pattern(pattern@),
{
    match Local.timestamp_opt(secs, nanos).single() {
        Some(dt) => Some(dt.format(pattern).to_string()),
        None => None,
    }
}

/// Whether `out` is what a call of `local_format` on `secs`, `nanos` and
/// `pattern` gave, or `fallback` where that call gave `None`. What the
/// call gives depends on the machine's time zone, so this fixes the call
/// that was made and what is done with its answer, not the answer.
pub closed spec fn local_rendering(secs: i64, nanos: u32, pattern: &str, fallback: Seq<char>, out: Seq<char>) -> bool {
    exists|o: Option<String>|
        #![trigger call_ensures(local_format, (secs, nanos, pattern), o)]
        call_ensures(local_format, (secs, nanos, pattern), o) && out == match o {
            Some(s) => s@,
            None => fallback,
        }
}

/// The local time of `secs` and `nanos` rendered under `pattern`, or
/// `fallback` when the local time is undefined (see `rendered_or`).
pub(crate) fn local_rendered_or(secs: i64, nanos: u32, pattern: &str, fallback: &str) -> (r: String)
    requires
        rendered_pattern(pattern@),
    ensures
        local_rendering(secs, nanos, pattern, fallback@, r@),
{
    let o = local_format(secs, nanos, pattern);
    crate::backup::rendered_or(o, fallback)
}

/// Milliseconds elapsed since the Unix epoch by `std::time::SystemTime::now`
/// (`Duration::as_millis`); `None` for a clock set before the epoch.
#[verifier::external_body]
fn system_millis() -> Option<u128> {
    match std::time::SystemTime::now().duration_since(std::time::UNIX_EPOCH) {
        Ok(d) => Some(d.as_millis()),
        Err(_) => None,
    }
}

/// Epoch milliseconds from the time elapsed since the epoch: the elapsed
/// milliseconds when they fit an `i64`, 0 when they do not or when the
/// clock is before the epoch (`None`).
pub fn epoch_millis_from(elapsed: Option<u128>) -> (r: i64)
    ensures
        r == match elapsed {
            Some(m) => if m <= i64::MAX {
                m as int
            } else {
                0
            },
            None => 0,
        },
{
    match elapsed {
        Some(m) => {
            if m <= i64::MAX as u128 {
                m as i64
            } else {
                0
            }
        },
        None => 0,
    }
}

/// The current time in epoch milliseconds (see `epoch_millis_from`); the
/// clock's reading is the machine's, so only its sign is promised.
pub fn now_ms() -> (r: i64)
    ensures
        r >= 0,
{
    epoch_millis_from(system_millis())
}

/// The nanoseconds part of an epoch-milliseconds timestamp as
/// `((epoch_ms % 1000) * 1_000_000) as u32` computes it: the truncated
/// remainder scaled, wrapped into `u32` when negative.
pub fn epoch_nanos(epoch_ms: i64) -> (r: u32)
    ensures
        r == epoch_nanos_spec(epoch_ms),
{
    let s = epoch_secs(epoch_ms);
    let rem: i128 = (epoch_ms as i128) - (s as i128) * 1000;
    let v: i128 = rem * 1_000_000;
    if v >= 0 {
        v as u32
    } else {
        (v + 0x1_0000_0000) as u32
    }
}

/// The nanoseconds part of an epoch-milliseconds timestamp: the remainder
/// of the truncated division by 1000, scaled to nanoseconds, wrapped into
/// `u32` when negative.
pub open spec fn epoch_nanos_spec(epoch_ms: i64) -> int {
    let rem = epoch_ms - epoch_secs_spec(epoch_ms) * 1000;
    let v = rem * 1_000_000;
    if v >= 0 {
        v
    } else {
        v + 0x1_0000_0000
    }
}

/// Whole seconds of an epoch-milliseconds timestamp, truncated toward zero.
pub open spec fn epoch_secs_spec(epoch_ms: i64) -> int {
    if epoch_ms >= 0 {
        epoch_ms / 1000
    } else {
        -((-epoch_ms) / 1000)
    }
}

/// Whole seconds of an epoch-milliseconds timestamp, truncated toward
/// zero as Rust's integer division does.
pub fn epoch_secs(epoch_ms: i64) -> (r: i64)
    ensures
        r == epoch_secs_spec(epoch_ms),
{
    if epoch_ms >= 0 {
        epoch_ms / 1000
    } else {
        let p: i128 = -(epoch_ms as i128);
        let q: i128 = p / 1000;
        (-q) as i64
    }
}

} // verus!
