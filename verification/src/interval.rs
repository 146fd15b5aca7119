use vstd::prelude::*;

use crate::fixed::{fsub, fx_sub, FX_MAX};

verus! {

/// The mathematical value of an interval: its two endpoints.
pub struct Intervali {
    pub min: int,
    pub max: int,
}

/// A closed scalar range, used for valid hit parameters and color clamping.
/// The default interval is empty: its minimum lies above its maximum, so it
/// contains no value at all.
#[derive(Clone, Copy, Debug)]
pub struct Interval {
    min: i64,
    max: i64,
}

impl View for Interval {
    type V = Intervali;

    closed spec fn view(&self) -> Intervali {
        Intervali { min: self.min as int, max: self.max as int }
    }
}

pub open spec fn contains_s(iv: Intervali, x: int) -> bool {
    iv.min <= x && x <= iv.max
}

pub open spec fn surrounds_s(iv: Intervali, x: int) -> bool {
    iv.min < x && x < iv.max
}

/// Project `x` into the interval.
pub open spec fn clamp_s(iv: Intervali, x: int) -> int {
    if x < iv.min {
        iv.min
    } else if x > iv.max {
        iv.max
    } else {
        x
    }
}

impl Interval {
    pub fn new(min: i64, max: i64) -> (r: Self)
        ensures
            r@ == (Intervali { min: min as int, max: max as int }),
    {
        Interval { min, max }
    }

    pub fn size(&self) -> (r: i64)
        ensures
            r == fsub(self@.max, self@.min),
    {
        fx_sub(self.max, self.min)
    }

    /// Closed containment: both endpoints belong to the interval.
    pub fn contains(&self, x: i64) -> (r: bool)
        ensures
            r == contains_s(self@, x as int),
    {
        self.min <= x && x <= self.max
    }

    /// Open containment: the endpoints themselves do not count.
    pub fn surrounds(&self, x: i64) -> (r: bool)
        ensures
            r == surrounds_s(self@, x as int),
    {
        self.min < x && x < self.max
    }

    pub fn min(&self) -> (r: i64)
        ensures
            r == self@.min,
    {
        self.min
    }

    pub fn max(&self) -> (r: i64)
        ensures
            r == self@.max,
    {
        self.max
    }

    pub fn clamp(&self, x: i64) -> (r: i64)
        ensures
            r == clamp_s(self@, x as int),
    {
        if x < self.min {
            self.min
        } else if x > self.max {
            self.max
        } else {
            x
        }
    }
}

impl Default for Interval {
    fn default() -> (r: Self)
        ensures
            r@ == (Intervali { min: FX_MAX as int, max: -FX_MAX as int }),
    {
        Interval { min: FX_MAX, max: -FX_MAX }
    }
}

/// Projecting into an interval twice is the same as projecting once.
pub proof fn lemma_clamp_idempotent(iv: Intervali, x: int)
    requires
        iv.min <= iv.max,
    ensures
        clamp_s(iv, clamp_s(iv, x)) == clamp_s(iv, x),
{
}

/// Open containment rejects both endpoints and accepts every value
/// strictly between them.
pub proof fn lemma_surrounds_open(iv: Intervali, x: int)
    ensures
        !surrounds_s(iv, iv.min),
        !surrounds_s(iv, iv.max),
        iv.min < x < iv.max ==> surrounds_s(iv, x),
{
}

/// The default interval contains no value.
pub proof fn lemma_default_interval_empty(x: int)
    ensures
        !contains_s(Intervali { min: FX_MAX as int, max: -FX_MAX as int }, x),
{
}

} // verus!
