use vstd::prelude::*;

verus! {

/// Time in ticks: a hundredth of a second each.
const SEC_TENTHS_TO_TIME: i64 = 10;

const SECS_TO_TIME: i64 = 100;

/// Minimum time for actions is 1s although the times at which objects are scheduled is
/// fuzzed so that an object scheduled for 1s from now will actually execute in 1s +/- a
/// small delta.
#[derive(Clone, Copy, Debug, PartialEq, Eq, Structural, Hash)]
pub struct Time {
    t: i64,
}

impl View for Time {
    type V = int;

    /// The number of ticks.
    closed spec fn view(&self) -> int {
        self.t as int
    }
}

impl Default for Time {
    /// No time at all, the same as `Time::zero`.
    fn default() -> (r: Time)
        ensures
            r@ == 0,
            r == from_units(0),
    {
        Time { t: 0 }
    }
}

/// The time of `u` ticks.
pub closed spec fn from_units(u: int) -> Time {
    Time { t: u as i64 }
}

impl Time {
    pub fn zero() -> (r: Time)
        ensures
            r@ == 0,
            r == from_units(0),
    {
        Time { t: 0 }
    }

    pub fn max() -> (r: Time)
        ensures
            r@ == i64::MAX,
            r == from_units(i64::MAX as int),
    {
        Time { t: i64::MAX }
    }

    /// A time's ticks fit in an `i64`.
    pub proof fn lemma_bounds(&self)
        ensures
            i64::MIN <= self@ <= i64::MAX,
    {
    }

    /// The number of ticks, a hundredth of a second each.
    pub fn ticks(&self) -> (r: i64)
        ensures
            r == self@,
    {
        self.t
    }

    pub fn plus(self, rhs: Time) -> (r: Time)
        requires
            i64::MIN <= self@ + rhs@ <= i64::MAX,
        ensures
            r@ == self@ + rhs@,
    {
        Time { t: self.t + rhs.t }
    }

    pub fn minus(self, rhs: Time) -> (r: Time)
        requires
            i64::MIN <= self@ - rhs@ <= i64::MAX,
        ensures
            r@ == self@ - rhs@,
    {
        Time { t: self.t - rhs.t }
    }

    pub fn times(self, rhs: i64) -> (r: Time)
        requires
            i64::MIN <= self@ * rhs <= i64::MAX,
        ensures
            r@ == self@ * rhs,
    {
        Time { t: self.t * rhs }
    }

    pub fn negate(self) -> (r: Time)
        requires
            self@ > i64::MIN,
        ensures
            r@ == -self@,
    {
        Time { t: -self.t }
    }

    /// `self` is earlier than `rhs`.
    pub fn lt(&self, rhs: &Time) -> (r: bool)
        ensures
            r == (self@ < rhs@),
    {
        self.t < rhs.t
    }

    /// `self` is earlier than or the same as `rhs`.
    pub fn le(&self, rhs: &Time) -> (r: bool)
        ensures
            r == (self@ <= rhs@),
    {
        self.t <= rhs.t
    }
}

/// The duration of an action after its random fuzz: the fuzzed number of ticks, but
/// always at least one (time has to advance).
pub fn fuzzed(sample: i64) -> (r: Time)
    ensures
        r@ == if sample >= 1 {
            sample as int
        } else {
            1
        },
{
    if sample >= 1 {
        Time { t: sample }
    } else {
        Time { t: 1 }
    }
}

/// In general this only should be used for "extra" time. For the most part use the constants
/// below (e.g. `cardinal_move`).
pub fn secs(s: i64) -> (r: Time)
    requires
        i64::MIN <= s * 100 <= i64::MAX,
    ensures
        r@ == s * 100,
        r == from_units(s * 100),
{
    Time { t: s * SECS_TO_TIME }
}

pub fn base_attack() -> (r: Time)
    ensures
        r@ == 100,
{
    Time { t: 1 * SECS_TO_TIME }
}

pub fn cardinal_move() -> (r: Time)
    ensures
        r@ == 800,
{
    Time { t: 8 * SECS_TO_TIME }
}

pub fn diagnol_move() -> (r: Time)
    ensures
        r@ == 1130,
{
    Time { t: 11 * SECS_TO_TIME + 3 * SEC_TENTHS_TO_TIME }
}

pub fn destroy_emp_sword() -> (r: Time)
    ensures
        r@ == 2400,
{
    Time { t: 24 * SECS_TO_TIME }
}

pub fn dig_stone() -> (r: Time)
    ensures
        r@ == 3200,
{
    Time { t: 32 * SECS_TO_TIME }
}

pub fn flood() -> (r: Time)
    ensures
        r@ == 3200,
{
    Time { t: 32 * SECS_TO_TIME }
}

pub fn move_thru_shallow_water() -> (r: Time)
    ensures
        r@ == 200,
{
    Time { t: 2 * SECS_TO_TIME }
}

pub fn open_door() -> (r: Time)
    ensures
        r@ == 1000,
{
    Time { t: 10 * SECS_TO_TIME }
}

pub fn pick_up() -> (r: Time)
    ensures
        r@ == 400,
{
    Time { t: 4 * SECS_TO_TIME }
}

pub fn scratch_metal() -> (r: Time)
    ensures
        r@ == 300,
{
    Time { t: 3 * SECS_TO_TIME }
}

pub fn shove_doorman() -> (r: Time)
    ensures
        r@ == 1600,
{
    Time { t: 16 * SECS_TO_TIME }
}

pub fn speak_to_spectator() -> (r: Time)
    ensures
        r@ == 200,
{
    Time { t: 2 * SECS_TO_TIME }
}

pub fn min_time() -> (r: Time)
    ensures
        r@ == 100,
{
    Time { t: 1 * SECS_TO_TIME }
}

} // verus!
