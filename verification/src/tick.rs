use crate::chance::random_in_range;
use vstd::prelude::*;

verus! {

/// Every this many ticks is a large tick.
pub const LARGE_TICK_FREQUENCY: i64 = 8;

/// Wall-clock length of one tick, in milliseconds.
pub const TICK_INTERVAL_MILLIS: i64 = 125;

/// A point on the simulation clock.
#[derive(Clone, Copy, Debug, PartialEq, Eq, Structural)]
pub struct Tick(pub i64);

/// A number of ticks: a period, a delay or a phase offset.
#[derive(Clone, Copy, Debug, PartialEq, Eq, Structural)]
pub struct TickDuration(pub i64);

/// The remainder that integer division truncating towards zero leaves.
pub open spec fn truncated_rem(a: int, b: int) -> int
    recommends
        b != 0,
{
    if a >= 0 {
        a % b
    } else {
        -((-a) % b)
    }
}

/// Whether a recurring action with the given period and phase offset is due
/// at clock value `tick`.
pub open spec fn on_division(tick: int, period: int, offset: int) -> bool
    recommends
        period != 0,
{
    truncated_rem(tick, period) == offset
}

impl Tick {
    pub fn zero() -> (t: Tick)
        ensures
            t.0 == 0,
    {
        Tick(0)
    }

    /// Whether this clock value is a large tick.
    pub fn is_large_tick(&self) -> (r: bool)
        ensures
            r == on_division(self.0 as int, LARGE_TICK_FREQUENCY as int, 0),
    {
        self.0 % LARGE_TICK_FREQUENCY == 0
    }

    /// Whether an action with the given period and phase offset is due at
    /// this clock value.
    pub fn is_on_division(&self, divide: TickDuration, offset: TickDuration) -> (r: bool)
        requires
            divide.0 != 0,
            !(self.0 == i64::MIN && divide.0 == -1),
        ensures
            r == on_division(self.0 as int, divide.0 as int, offset.0 as int),
    {
        self.0 % divide.0 == offset.0
    }

    /// The next clock value.
    pub fn increase(&self) -> (t: Tick)
        requires
            self.0 < i64::MAX,
        ensures
            t.0 == self.0 + 1,
    {
        Tick(self.0 + 1)
    }

    /// The clock value `rhs` ticks after this one.
    pub fn add(self, rhs: TickDuration) -> (t: Tick)
        requires
            i64::MIN <= self.0 + rhs.0 <= i64::MAX,
        ensures
            t.0 == self.0 + rhs.0,
    {
        Tick(self.0 + rhs.0)
    }
}

impl TickDuration {
    pub fn zero() -> (d: TickDuration)
        ensures
            d.0 == 0,
    {
        TickDuration(0)
    }

    /// A phase offset for this period, drawn at random: at least zero and
    /// less than the period.
    pub fn random_offset(&self) -> (offset: TickDuration)
        requires
            self.0 > 0,
        ensures
            0 <= offset.0 < self.0,
    {
        TickDuration(random_in_range(0, self.0))
    }

    /// The whole number of ticks that fit into `millis` milliseconds.
    pub fn from_millis(millis: i64) -> (d: TickDuration)
        ensures
            d.0 == truncated_div(millis as int, TICK_INTERVAL_MILLIS as int),
    {
        TickDuration(millis / TICK_INTERVAL_MILLIS)
    }
}

/// The quotient of integer division truncating towards zero.
pub open spec fn truncated_div(a: int, b: int) -> int
    recommends
        b != 0,
{
    if a >= 0 {
        a / b
    } else {
        -((-a) / b)
    }
}

/// Within any window of `period` consecutive clock values, none of them
/// negative, an action with phase offset in `[0, period)` is due at exactly
/// one value: `instant`.
pub open spec fn fires_once_in_window(start: int, period: int, offset: int, instant: int) -> bool {
    &&& start <= instant < start + period
    &&& on_division(instant, period, offset)
    &&& forall|t: int|
        start <= t < start + period && #[trigger] on_division(t, period, offset) ==> t == instant
}

/// Phase offsets below the period spread recurring actions over the clock:
/// each one fires exactly once in every window as long as its period.
pub proof fn lemma_fires_once_per_period(start: int, period: int, offset: int)
    requires
        0 <= start,
        0 < period,
        0 <= offset < period,
    ensures
        exists|instant: int| fires_once_in_window(start, period, offset, instant),
{
    let q = start / period;
    let r = start % period;
    vstd::arithmetic::div_mod::lemma_fundamental_div_mod(start, period);
    vstd::arithmetic::div_mod::lemma_mod_pos_bound(start, period);
    let first = period * q + offset;
    let instant = if first >= start {
        first
    } else {
        first + period
    };
    let qi = if first >= start {
        q
    } else {
        q + 1
    };
    assert(instant == qi * period + offset) by (nonlinear_arith)
        requires
            first == period * q + offset,
            instant == (if first >= start {
                first
            } else {
                first + period
            }),
            qi == (if first >= start {
                q
            } else {
                q + 1
            }),
    ;
    vstd::arithmetic::div_mod::lemma_fundamental_div_mod_converse(instant, period, qi, offset);
    assert forall|t: int|
        start <= t < start + period && #[trigger] on_division(t, period, offset) implies t
        == instant by {
        let qt = t / period;
        vstd::arithmetic::div_mod::lemma_fundamental_div_mod(t, period);
        assert(qt == qi && t == instant) by (nonlinear_arith)
            requires
                t == period * qt + offset,
                instant == qi * period + offset,
                -period < t - instant < period,
                0 < period,
        ;
    }
    assert(fires_once_in_window(start, period, offset, instant));
}

} // verus!
