//! PIT 8254 timer: programming channel 0 for a periodic IRQ0 and turning the
//! tick count into uptime.
use vstd::prelude::*;

verus! {

/// Input frequency of the PIT, in Hz.
pub const PIT_BASE_FREQUENCY: u32 = 1193182;

/// Timer interrupts per second (one tick every 10 ms).
pub const TICKS_PER_SECOND: u32 = 100;

/// PIT command port.
pub const PIT_COMMAND: u16 = 0x43;

/// PIT channel 0 data port.
pub const PIT_CHANNEL0_DATA: u16 = 0x40;

/// Channel 0, low byte then high byte, mode 3 (square wave), binary count.
pub const PIT_MODE3_SQUARE_WAVE: u8 = 0x36;

/// Reload value of channel 0: the base frequency divided by the tick rate.
pub fn pit_divisor() -> (r: u16)
    ensures
        r == PIT_BASE_FREQUENCY / TICKS_PER_SECOND,
        r == 11931,
{
    (PIT_BASE_FREQUENCY / TICKS_PER_SECOND) as u16
}

/// Port writes that program channel 0 for `TICKS_PER_SECOND` interrupts per
/// second: the mode byte, then the divisor, low byte first.
pub fn pit_program() -> (r: Vec<(u16, u8)>)
    ensures
        r@ == seq![
            (PIT_COMMAND, PIT_MODE3_SQUARE_WAVE),
            (PIT_CHANNEL0_DATA, (11931int % 256) as u8),
            (PIT_CHANNEL0_DATA, (11931int / 256) as u8),
        ],
{
    let divisor: u16 = pit_divisor();
    let lo: u8 = (divisor & 0xFF) as u8;
    let hi: u8 = (divisor >> 8) as u8;
    assert(lo == 0x9Bu8 && hi == 0x2Eu8) by (bit_vector)
        requires
            divisor == 11931,
            lo == (divisor & 0xFF) as u8,
            hi == (divisor >> 8) as u8,
    ;
    vec![(PIT_COMMAND, PIT_MODE3_SQUARE_WAVE), (PIT_CHANNEL0_DATA, lo), (PIT_CHANNEL0_DATA, hi)]
}

/// Tick count after one more timer interrupt (the counter wraps around).
pub fn on_tick(ticks: u64) -> (r: u64)
    ensures
        r == (ticks + 1) % 0x1_0000_0000_0000_0000,
{
    ticks.wrapping_add(1)
}

/// Whole seconds elapsed after `ticks` timer interrupts.
pub fn uptime_seconds(ticks: u64) -> (r: u64)
    ensures
        r == ticks / (TICKS_PER_SECOND as u64),
{
    ticks / (TICKS_PER_SECOND as u64)
}

/// Milliseconds elapsed after `ticks` timer interrupts.
pub fn uptime_ms(ticks: u64) -> (r: u64)
    requires
        ticks * 10 <= u64::MAX,
    ensures
        r == ticks * (1000u64 / TICKS_PER_SECOND as u64),
{
    ticks * (1000 / TICKS_PER_SECOND as u64)
}

/// The millisecond and second counters agree: one tick is 10 ms, so the
/// whole seconds in `uptime_ms` are `uptime_seconds`.
pub proof fn law_uptime_units_agree(ticks: u64)
    requires
        ticks * 10 <= u64::MAX,
    ensures
        (ticks * 10) / 1000 == ticks / 100,
{
    assert((ticks * 10) / 1000 == ticks / 100) by (nonlinear_arith);
}

} // verus!
