//! Tone events, the interchange format between the generators and the
//! instrument scheduler, and the musical time base they are derived from.
//!
//! Musical time is counted in ticks, `TICKS_PER_BEAT` to a beat. Event time
//! is counted in whole microseconds.

use vstd::prelude::*;

verus! {

/// Subdivisions of one beat.
pub const TICKS_PER_BEAT: u64 = 480;

/// Microseconds in one tick at one beat per minute (60 s / 480).
pub const MICROS_PER_TICK_AT_ONE_BPM: u64 = 125_000;

/// The largest tick count that `ticks_to_micros` accepts.
pub const MAX_TICKS: u64 = 100_000_000_000;

/// Wall-clock microseconds (rounded down) of `ticks` at `bpm` beats per minute.
pub open spec fn micros_of(ticks: int, bpm: int) -> int {
    ticks * 125_000 / bpm
}

/// Converts musical time to wall-clock time.
pub fn ticks_to_micros(ticks: u64, bpm: u64) -> (r: u64)
    requires
        bpm > 0,
        ticks <= MAX_TICKS,
    ensures
        r == micros_of(ticks as int, bpm as int),
{
    assert(ticks * 125_000 <= 100_000_000_000 * 125_000) by (nonlinear_arith)
        requires ticks <= 100_000_000_000;
    ticks * MICROS_PER_TICK_AT_ONE_BPM / bpm
}

/// One note to be played: onset and length in microseconds, a MIDI note
/// number (zero or below marks a rest) and a velocity out of 127.
#[derive(Copy, Clone, PartialEq, Eq, Structural, Debug)]
pub struct Tone {
    pub start_time: u64,
    pub duration: u64,
    pub pitch: i32,
    pub velocity: u8,
}

impl Tone {
    pub fn new(start_time: u64, duration: u64, pitch: i32, velocity: u8) -> (r: Tone)
        ensures
            r == (Tone { start_time, duration, pitch, velocity }),
    {
        Tone { start_time, duration, pitch, velocity }
    }

    pub open spec fn is_rest(self) -> bool {
        self.pitch <= 0
    }
}

} // verus!
