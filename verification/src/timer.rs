//! Conversions between timer ticks and wall-clock units.
use vstd::prelude::*;
use crate::config::CLOCK_FREQ;

verus! {

/// Timer interrupts per second.
pub const TICKS_PER_SEC: u64 = 100;

/// Milliseconds per second.
pub const MSEC_PER_SEC: u64 = 1000;

/// Microseconds per second.
pub const MICRO_PER_SEC: u64 = 1_000_000;

/// The time in milliseconds after `ticks` timer ticks.
pub fn get_time_ms(ticks: u64) -> (r: u64)
    requires
        ticks * MSEC_PER_SEC <= u64::MAX,
    ensures
        r == ticks * MSEC_PER_SEC / (CLOCK_FREQ as int),
{
    ticks * MSEC_PER_SEC / CLOCK_FREQ
}

/// The time in microseconds after `ticks` timer ticks.
pub fn get_time_us(ticks: u64) -> (r: u64)
    requires
        ticks * MICRO_PER_SEC <= u64::MAX,
    ensures
        r == ticks * MICRO_PER_SEC / (CLOCK_FREQ as int),
{
    ticks * MICRO_PER_SEC / CLOCK_FREQ
}

/// The tick at which the next timer interrupt is due, `now` being the
/// current tick: one slice of `1 / TICKS_PER_SEC` seconds later.
pub fn set_next_trigger(now: u64) -> (r: u64)
    requires
        now + CLOCK_FREQ / TICKS_PER_SEC <= u64::MAX,
    ensures
        r == now + CLOCK_FREQ / TICKS_PER_SEC,
{
    now + CLOCK_FREQ / TICKS_PER_SEC
}

/// The millisecond clock is the microsecond clock rounded down to whole
/// milliseconds.
pub proof fn lemma_ms_is_us_over_1000(ticks: u64)
    ensures
        ticks * MSEC_PER_SEC / (CLOCK_FREQ as int) == (ticks * MICRO_PER_SEC / (CLOCK_FREQ as int)) / 1000,
{
    let t = ticks as int;
    vstd::arithmetic::div_mod::lemma_div_denominator(t * 1_000_000, 12_500_000, 1000);
    vstd::arithmetic::div_mod::lemma_div_denominator(t * 1_000_000, 1000, 12_500_000);
    vstd::arithmetic::div_mod::lemma_div_by_multiple(t * 1000, 1000);
    assert(t * 1000 * 1000 == t * 1_000_000);
    assert(12_500_000int * 1000 == 1000int * 12_500_000);
}

} // verus!
