//! The periodic timer and the clock that counts its ticks.

use vstd::prelude::*;

use crate::ports::PortWrite;

verus! {

pub const TICKS_PER_SECOND: u64 = 100;

/// The frequency that the timer chip divides down.
pub const PIT_INPUT_HZ: u64 = 1_193_182;

pub const PIT_COMMAND: u16 = 0x43;

pub const PIT_CHANNEL_0: u16 = 0x40;

/// The divisor that turns the input frequency into ticks.
pub open spec fn pit_divisor() -> int {
    PIT_INPUT_HZ as int / TICKS_PER_SECOND as int
}

/// The writes that start the timer: the mode, then the divisor, low byte first.
pub fn initialize() -> (writes: [PortWrite; 3])
    ensures
        writes@.len() == 3,
        writes@[0] == (PortWrite { port: PIT_COMMAND, value: 0x36 }),
        writes@[1].port == PIT_CHANNEL_0,
        writes@[2].port == PIT_CHANNEL_0,
        writes@[1].value + 256 * writes@[2].value == pit_divisor(),
        writes@[0].port == 0x43 && writes@[1].port == 0x40 && writes@[2].port == 0x40,
{
    let divisor: u16 = (PIT_INPUT_HZ / TICKS_PER_SECOND) as u16;
    let low: u8 = (divisor % 256) as u8;
    let high: u8 = (divisor / 256) as u8;
    [
        PortWrite { port: PIT_COMMAND, value: 0x36 },
        PortWrite { port: PIT_CHANNEL_0, value: low },
        PortWrite { port: PIT_CHANNEL_0, value: high },
    ]
}

/// The ticks counted since boot.
#[derive(Clone, Copy)]
pub struct TickCounter {
    ticks: u64,
}

impl View for TickCounter {
    type V = u64;

    closed spec fn view(&self) -> u64 {
        self.ticks
    }
}

impl TickCounter {
    pub fn new() -> (counter: Self)
        ensures
            counter@ == 0,
    {
        TickCounter { ticks: 0 }
    }
}

/// Counts one tick. The count wraps around.
pub fn tick(counter: &mut TickCounter)
    ensures
        final(counter)@ == old(counter)@.wrapping_add(1),
{
    counter.ticks = counter.ticks.wrapping_add(1);
}

pub fn ticks(counter: &TickCounter) -> (count: u64)
    ensures
        count == counter@,
{
    counter.ticks
}

/// Whole seconds since boot.
pub fn uptime_seconds(counter: &TickCounter) -> (seconds: u64)
    ensures
        seconds == counter@ / TICKS_PER_SECOND,
        100 * seconds <= counter@ < 100 * seconds + 100,
{
    counter.ticks / TICKS_PER_SECOND
}

/// A second passes every hundred ticks, and never without one: the clock does not run
/// backwards until the count wraps around.
pub proof fn law_uptime_follows_ticks(before: u64, more: u64)
    requires
        before + more <= u64::MAX,
    ensures
        before / TICKS_PER_SECOND <= (before + more) as u64 / TICKS_PER_SECOND,
        more % TICKS_PER_SECOND == 0 ==> (before + more) as u64 / TICKS_PER_SECOND == before
            / TICKS_PER_SECOND + more / TICKS_PER_SECOND,
{
}

/// The divisor fits the sixteen bits that the timer takes, and gives a tick rate within
/// a hundredth of a tick per second of the one asked for.
pub proof fn law_tick_rate()
    ensures
        0 < pit_divisor() <= u16::MAX,
        pit_divisor() * TICKS_PER_SECOND <= PIT_INPUT_HZ < pit_divisor() * TICKS_PER_SECOND
            + TICKS_PER_SECOND,
        100 * PIT_INPUT_HZ < (100 * TICKS_PER_SECOND + 1) * pit_divisor(),
{
}

/// The divisor is the input frequency, 1193182 a second, cut to a hundredth.
pub proof fn law_divisor()
    ensures
        100 * pit_divisor() <= 1_193_182 < 100 * (pit_divisor() + 1),
{
}

} // verus!
