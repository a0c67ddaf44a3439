//! The clock the runners age their timers with.
//!
//! A tick's length is measured in microseconds and counted in whole
//! milliseconds; the remainder is carried into the next tick, so over any
//! number of ticks the counted milliseconds add up to the elapsed time, up
//! to the carry held at the end.
use crate::clock::{duration_between, duration_micros, instant_now};
use crate::text::{parse_u64, parsed_u64, trim, trimmed};
use vstd::prelude::*;

verus! {

/// Measures the time between ticks in whole milliseconds, carrying the
/// sub-millisecond remainder forward.
pub struct TickClock {
    last: std::time::Instant,
    carry_us: i64,
}

impl TickClock {
    #[verifier::type_invariant]
    spec fn carry_in_range(self) -> bool {
        0 <= self.carry_us < 1000
    }

    /// The microseconds carried into the next tick.
    pub closed spec fn carry(self) -> int {
        self.carry_us as int
    }

    /// A clock that starts now, with nothing carried.
    pub fn new() -> (c: TickClock)
        ensures
            c.carry() == 0,
    {
        TickClock { last: instant_now(), carry_us: 0 }
    }

    /// The microseconds carried into the next tick.
    pub fn carry_us(&self) -> (r: i64)
        ensures
            r == self.carry(),
            0 <= r < 1000,
    {
        proof {
            use_type_invariant(self);
        }
        self.carry_us
    }

    /// Counts a tick of `elapsed_us` microseconds: returns its whole
    /// milliseconds, the carried remainder included, and carries the rest.
    pub fn advance_us(&mut self, elapsed_us: i64) -> (ms: i64)
        requires
            0 <= elapsed_us <= i64::MAX - 1000,
        ensures
            ms * 1000 + final(self).carry() == elapsed_us + old(self).carry(),
            0 <= final(self).carry() < 1000,
            ms == (elapsed_us + old(self).carry()) / 1000,
    {
        proof {
            use_type_invariant(&*self);
        }
        let total = elapsed_us + self.carry_us;
        self.carry_us = total % 1000;
        total / 1000
    }

    /// The whole milliseconds since the previous call (or since the clock
    /// was made), the carried remainder included.
    pub fn elapsed_ms(&mut self) -> (ms: i64)
        ensures
            ms >= 0,
            0 <= final(self).carry() < 1000,
            exists|us: int| #![trigger (us + old(self).carry())]
                0 <= us <= i64::MAX - 1000 && ms * 1000 + final(self).carry() == us + old(self).carry(),
    {
        proof {
            use_type_invariant(&*self);
        }
        let now = instant_now();
        let d = duration_between(&now, &self.last);
        let us = duration_micros(&d);
        let bound: u128 = (i64::MAX - 1000) as u128;
        let us_i64: i64 = if us <= bound {
            us as i64
        } else {
            i64::MAX - 1000
        };
        self.last = now;
        let ms = self.advance_us(us_i64);
        assert(0 <= us_i64 as int <= i64::MAX - 1000 && ms * 1000 + self.carry() == us_i64 as int + old(self).carry());
        ms
    }
}

impl Default for TickClock {
    /// A clock that starts now, with nothing carried.
    fn default() -> (c: TickClock)
        ensures
            c.carry() == 0,
    {
        TickClock::new()
    }
}

/// Over a run of ticks, the counted milliseconds add up to the elapsed
/// microseconds, up to what is carried at the end: counting is exact.
pub proof fn lemma_carry_sums_exactly(ticks: Seq<int>, ms: Seq<int>, carries: Seq<int>)
    requires
        ms.len() == ticks.len(),
        carries.len() == ticks.len() + 1,
        carries[0] == 0,
        forall|i: int| 0 <= i < ticks.len() ==> #[trigger] ms[i] * 1000 + carries[i + 1] == ticks[i] + carries[i],
    ensures
        sum(ms) * 1000 + carries[ticks.len() as int] == sum(ticks),
    decreases ticks.len(),
{
    if ticks.len() > 0 {
        let n = ticks.len() - 1;
        lemma_carry_sums_exactly(ticks.drop_last(), ms.drop_last(), carries.drop_last());
        assert(ticks.drop_last().len() == n);
        assert(forall|i: int| 0 <= i < n ==> #[trigger] ms.drop_last()[i] == ms[i]);
        assert(ms[n] * 1000 + carries[n + 1] == ticks[n] + carries[n]);
    }
}

/// The sum of a sequence of integers.
pub open spec fn sum(s: Seq<int>) -> int
    decreases s.len(),
{
    if s.len() == 0 {
        0
    } else {
        sum(s.drop_last()) + s.last()
    }
}


/// The period every runner ticks at when no period is configured.
pub const DEFAULT_TICK_INTERVAL_MS: u64 = 5;

/// The shortest period accepted; a shorter one is raised to it.
pub const MIN_TICK_INTERVAL_MS: u64 = 1;

/// The period a configured text asks for: the whole number it holds once
/// white space is trimmed from both ends, raised to the floor if below it,
/// or the default where it holds no such number.
pub open spec fn tick_interval_of_text(text: Seq<char>) -> u64 {
    match parsed_u64(trimmed(text)) {
        Some(ms) => if ms >= MIN_TICK_INTERVAL_MS {
            ms
        } else {
            MIN_TICK_INTERVAL_MS
        },
        None => DEFAULT_TICK_INTERVAL_MS,
    }
}

/// The tick period in milliseconds, given the configured text if there is
/// one: the number it holds, raised to [`MIN_TICK_INTERVAL_MS`]; or
/// [`DEFAULT_TICK_INTERVAL_MS`] when nothing is configured or the text is
/// not a whole number.
pub fn tick_interval_ms(configured: Option<&str>) -> (r: u64)
    ensures
        r == match configured {
            Some(text) => tick_interval_of_text(text@),
            None => DEFAULT_TICK_INTERVAL_MS,
        },
        r >= MIN_TICK_INTERVAL_MS,
{
    match configured {
        Some(text) => match parse_u64(trim(text)) {
            Some(ms) => if ms >= MIN_TICK_INTERVAL_MS {
                ms
            } else {
                MIN_TICK_INTERVAL_MS
            },
            None => DEFAULT_TICK_INTERVAL_MS,
        },
        None => DEFAULT_TICK_INTERVAL_MS,
    }
}

} // verus!
