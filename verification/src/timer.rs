//! Conversions from timer ticks to the time formats user space asks for.
use crate::codec::{get_u64, put_signed_word, put_word, signed_word_bytes, word_bytes, word_of};
use crate::config::{CLOCK_FREQ, MSEC_PER_SEC, TICKS_PER_SEC};
use vstd::prelude::*;

verus! {

/// Seconds and microseconds.
#[derive(Clone, Copy, Debug, PartialEq, Eq, Structural)]
pub struct TimeVal {
    pub sec: usize,
    pub usec: usize,
}

/// Process times, in the order user space reads them.
#[derive(Clone, Copy, Debug, PartialEq, Eq, Structural)]
pub struct Tms {
    pub tms_utime: isize,
    pub tms_stime: isize,
    pub tms_cutime: isize,
    pub tms_cstime: isize,
}

/// Milliseconds that have passed after `ticks` timer ticks.
pub open spec fn ticks_to_ms(ticks: int) -> int {
    ticks / 12_500
}

/// Whole seconds that have passed after `ticks` timer ticks.
pub open spec fn ticks_to_sec(ticks: int) -> int {
    ticks / 12_500_000
}

/// Microseconds into the current second after `ticks` timer ticks.
pub open spec fn ticks_to_usec_part(ticks: int) -> int {
    (ticks % 12_500_000) * 1_000_000 / 12_500_000
}

/// Nanoseconds into the current second after `ticks` timer ticks.
pub open spec fn ticks_to_nsec_part(ticks: int) -> int {
    (ticks % 12_500_000) * 80
}

/// Milliseconds that have passed after `ticks` timer ticks.
pub fn get_time_ms(ticks: usize) -> (ms: usize)
    ensures
        ms == ticks_to_ms(ticks as int),
{
    ticks / (CLOCK_FREQ / MSEC_PER_SEC)
}

/// The time after `ticks` timer ticks, as seconds and microseconds.
pub fn get_timeval(ticks: usize) -> (tv: TimeVal)
    ensures
        tv.sec == ticks_to_sec(ticks as int),
        tv.usec == ticks_to_usec_part(ticks as int),
        tv.usec < 1_000_000,
{
    let sec: usize = ticks / CLOCK_FREQ;
    let rem: u64 = (ticks % CLOCK_FREQ) as u64;
    let usec: u64 = rem * 1_000_000 / 12_500_000;
    TimeVal { sec, usec: usec as usize }
}

/// The time after `ticks` timer ticks, as seconds and nanoseconds.
pub fn get_timespec(ticks: usize) -> (ts: (u64, u64))
    ensures
        ts.0 == ticks_to_sec(ticks as int),
        ts.1 == ticks_to_nsec_part(ticks as int),
        ts.1 < 1_000_000_000,
{
    let sec: u64 = (ticks / CLOCK_FREQ) as u64;
    let rem: u64 = (ticks % CLOCK_FREQ) as u64;
    (sec, rem * 80)
}

/// The tick at which the next preemption is due when the clock reads `now`.
pub open spec fn next_trigger_after(now: usize) -> usize {
    if now + 125_000 <= usize::MAX {
        (now + 125_000) as usize
    } else {
        usize::MAX
    }
}

/// The tick at which the next preemption is due when the clock reads `now`:
/// one hundredth of a second later.
pub fn next_trigger(now: usize) -> (at: usize)
    ensures
        at == next_trigger_after(now),
{
    now.saturating_add(CLOCK_FREQ / TICKS_PER_SEC)
}

impl TimeVal {
    /// Zero seconds, zero microseconds.
    pub fn new() -> (tv: Self)
        ensures
            tv.sec == 0,
            tv.usec == 0,
    {
        TimeVal { sec: 0, usec: 0 }
    }

    /// The sixteen bytes user space reads: seconds, then microseconds.
    pub open spec fn bytes(self) -> Seq<u8> {
        word_bytes(self.sec) + word_bytes(self.usec)
    }

    /// The length of the interval in milliseconds, capped at `usize::MAX`.
    pub open spec fn millis(self) -> int {
        let ms = self.sec * 1000 + self.usec / 1000;
        if ms <= usize::MAX {
            ms
        } else {
            usize::MAX as int
        }
    }

    /// The sixteen bytes user space reads: seconds, then microseconds.
    pub fn as_bytes(&self) -> (out: Vec<u8>)
        ensures
            out@ == self.bytes(),
            out@.len() == 16,
    {
        let mut out: Vec<u8> = Vec::new();
        put_word(&mut out, self.sec);
        put_word(&mut out, self.usec);
        out
    }

    /// The value that user space stored as sixteen bytes.
    pub fn from_bytes(data: &[u8]) -> (tv: Self)
        requires
            data@.len() == 16,
        ensures
            tv.sec == word_of(data@.subrange(0, 8)),
            tv.usec == word_of(data@.subrange(8, 16)),
    {
        TimeVal { sec: get_u64(data, 0) as usize, usec: get_u64(data, 8) as usize }
    }

    /// The length of the interval in milliseconds, capped at `usize::MAX`.
    pub fn as_millis(&self) -> (ms: usize)
        ensures
            ms == self.millis(),
    {
        match self.sec.checked_mul(1000) {
            Some(s) => s.saturating_add(self.usec / 1000),
            None => usize::MAX,
        }
    }
}

impl Tms {
    /// The thirty-two bytes user space reads.
    pub open spec fn bytes(self) -> Seq<u8> {
        signed_word_bytes(self.tms_utime) + signed_word_bytes(self.tms_stime) + signed_word_bytes(
            self.tms_cutime,
        ) + signed_word_bytes(self.tms_cstime)
    }

    /// The thirty-two bytes user space reads.
    pub fn as_bytes(&self) -> (out: Vec<u8>)
        ensures
            out@ == self.bytes(),
            out@.len() == 32,
    {
        let mut out: Vec<u8> = Vec::new();
        put_signed_word(&mut out, self.tms_utime);
        put_signed_word(&mut out, self.tms_stime);
        put_signed_word(&mut out, self.tms_cutime);
        put_signed_word(&mut out, self.tms_cstime);
        out
    }
}

} // verus!
