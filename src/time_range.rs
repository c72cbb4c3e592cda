//! Closed ranges of timestamps.
use vstd::prelude::*;

verus! {

/// The timestamps from `min_ts` to `max_ts`, both included. The range with
/// `min_ts == i64::MAX` and `max_ts == i64::MIN` holds nothing.
#[derive(Clone, Copy, Debug, PartialEq, Eq, Structural)]
pub struct TimeRange {
    pub min_ts: i64,
    pub max_ts: i64,
}

pub open spec fn spec_min(a: i64, b: i64) -> i64 {
    if a <= b { a } else { b }
}

pub open spec fn spec_max(a: i64, b: i64) -> i64 {
    if a >= b { a } else { b }
}

impl TimeRange {
    pub fn new(min_ts: i64, max_ts: i64) -> (r: Self)
        ensures
            r.min_ts == min_ts,
            r.max_ts == max_ts,
    {
        TimeRange { min_ts, max_ts }
    }

    /// The empty range, the unit of `merge`.
    pub fn none() -> (r: Self)
        ensures
            r == Self::spec_none(),
    {
        TimeRange { min_ts: i64::MAX, max_ts: i64::MIN }
    }

    pub open spec fn spec_none() -> Self {
        TimeRange { min_ts: i64::MAX, max_ts: i64::MIN }
    }

    pub open spec fn spec_merged(self, o: Self) -> Self {
        TimeRange { min_ts: spec_min(self.min_ts, o.min_ts), max_ts: spec_max(self.max_ts, o.max_ts) }
    }

    /// Widens this range to span `o` too.
    pub fn merge(&mut self, o: &TimeRange)
        ensures
            *final(self) == old(self).spec_merged(*o),
    {
        if o.min_ts < self.min_ts {
            self.min_ts = o.min_ts;
        }
        if o.max_ts > self.max_ts {
            self.max_ts = o.max_ts;
        }
    }
}

/// Merging spans is commutative.
pub proof fn lemma_merge_commutes(a: TimeRange, b: TimeRange)
    ensures
        a.spec_merged(b) == b.spec_merged(a),
{
}

/// The empty range leaves a range unchanged under merging.
pub proof fn lemma_merge_none(a: TimeRange)
    ensures
        a.spec_merged(TimeRange::spec_none()) == a,
{
}

} // verus!
