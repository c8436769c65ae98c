//! Fixed-point plane coordinates.
//!
//! A coordinate is stored as a signed 64-bit count of units of `1 / SCALE`
//! (with `SCALE = 2^32`), so the value represented by `raw` is
//! `raw / 2^32`. The evaluator needs room for the intermediate values of
//! the recurrence, so well-formed coordinates are restricted to raw values
//! in `[-COORD_BOUND, COORD_BOUND]`; that still covers every value of
//! magnitude up to `2^30`, while everything of magnitude above 2 escapes
//! within the first two iterations anyway.

use vstd::prelude::*;

verus! {

/// One unit of the integer part, counted in raw steps: 2^32.
pub const SCALE: i64 = 4294967296;

/// Largest admissible magnitude of a raw coordinate: 2^62.
pub const COORD_BOUND: i64 = 4611686018427387904;

/// A plane coordinate in fixed-point form: the value `raw / SCALE`.
#[derive(Clone, Copy, Debug, PartialEq, Eq, Structural)]
pub struct Fixed {
    pub raw: i64,
}

impl View for Fixed {
    type V = int;

    open spec fn view(&self) -> int {
        self.raw as int
    }
}

impl Fixed {
    /// A coordinate is well formed when its raw value leaves enough
    /// headroom for the recurrence's intermediate values.
    pub open spec fn wf(self) -> bool {
        -COORD_BOUND <= self.raw <= COORD_BOUND
    }

    /// Builds the coordinate with the given raw value.
    pub fn from_raw(raw: i64) -> (r: Fixed)
        requires
            -COORD_BOUND <= raw <= COORD_BOUND,
        ensures
            r@ == raw,
            r.wf(),
    {
        Fixed { raw }
    }

    /// Builds the coordinate with the given raw value, or reports that the
    /// value is out of range.
    pub fn checked_from_raw(raw: i64) -> (r: Option<Fixed>)
        ensures
            -COORD_BOUND <= raw <= COORD_BOUND ==> r == Some(Fixed { raw }),
            !(-COORD_BOUND <= raw <= COORD_BOUND) ==> r is None,
    {
        if -COORD_BOUND <= raw && raw <= COORD_BOUND {
            Some(Fixed { raw })
        } else {
            None
        }
    }

    /// Builds the coordinate for a whole number.
    pub fn from_int(v: i64) -> (r: Fixed)
        requires
            -1073741823 <= v <= 1073741823,
        ensures
            r@ == v * SCALE,
            r.wf(),
    {
        Fixed { raw: v * SCALE }
    }

    /// The raw value.
    pub fn raw(self) -> (r: i64)
        ensures
            r == self@,
    {
        self.raw
    }
}

} // verus!
