//! The retry envelope's exponential backoff: a bounded interval that grows by
//! a rational factor after every failed attempt. The factor is a ratio of two
//! integers so that growth stays exact; the enclosing program converts
//! whatever form its options arrive in.

use vstd::prelude::*;

verus! {

/// The retry policy: interval bounds and the growth factor `mul_num/mul_den`.
#[derive(Clone, Copy, Debug, PartialEq, Eq, Structural)]
pub struct RetryPolicy {
    pub min_interval: u64,
    pub max_interval: u64,
    pub mul_num: u64,
    pub mul_den: u64,
}

impl RetryPolicy {
    /// The bounds are ordered, the floor is at least a second, and the factor
    /// is at least one.
    pub open spec fn wf(self) -> bool {
        &&& 1 <= self.min_interval <= self.max_interval
        &&& 1 <= self.mul_den <= self.mul_num
    }

    /// Builds a policy from raw options, clamping them into a sound range:
    /// the floor to at least one second, the ceiling to at least the floor,
    /// and the factor to at least one.
    pub fn normalize(min_interval: u64, max_interval: u64, mul_num: u64, mul_den: u64) -> (r:
        RetryPolicy)
        ensures
            r.wf(),
            r.min_interval == if min_interval >= 1 {
                min_interval
            } else {
                1u64
            },
            r.max_interval == if max_interval >= r.min_interval {
                max_interval
            } else {
                r.min_interval
            },
            r.mul_den == if mul_den >= 1 {
                mul_den
            } else {
                1u64
            },
            r.mul_num == if mul_num >= r.mul_den {
                mul_num
            } else {
                r.mul_den
            },
    {
        let min_interval: u64 = if min_interval >= 1 {
            min_interval
        } else {
            1
        };
        let max_interval: u64 = if max_interval >= min_interval {
            max_interval
        } else {
            min_interval
        };
        let mul_den: u64 = if mul_den >= 1 {
            mul_den
        } else {
            1
        };
        let mul_num: u64 = if mul_num >= mul_den {
            mul_num
        } else {
            mul_den
        };
        RetryPolicy { min_interval, max_interval, mul_num, mul_den }
    }

    /// The interval the retry loop starts from.
    pub fn initial_interval(&self) -> (r: u64)
        ensures
            r == self.min_interval,
    {
        self.min_interval
    }

    /// What follows `interval`: `min(max_interval, interval * num / den)`.
    pub open spec fn spec_next_interval(self, interval: u64) -> u64 {
        let grown = (interval as int * self.mul_num as int) / (self.mul_den as int);
        if grown <= self.max_interval {
            grown as u64
        } else {
            self.max_interval
        }
    }

    /// The interval to sleep before the next attempt after `interval`.
    pub fn next_interval(&self, interval: u64) -> (r: u64)
        requires
            self.wf(),
        ensures
            r == self.spec_next_interval(interval),
    {
        proof {
            assert((interval as int) * (self.mul_num as int) <= (u64::MAX as int) * (
            u64::MAX as int)) by (nonlinear_arith)
                requires
                    0 <= interval as int <= u64::MAX as int,
                    0 <= self.mul_num as int <= u64::MAX as int,
            ;
        }
        let grown = (interval as u128 * self.mul_num as u128) / self.mul_den as u128;
        if grown <= self.max_interval as u128 {
            grown as u64
        } else {
            self.max_interval
        }
    }
}

/// Backoff is monotone and bounded: as long as the factor is at least one and
/// the current interval has not overrun the ceiling, the next interval is no
/// smaller than the current one and never exceeds the ceiling.
pub proof fn lemma_backoff_monotonic(policy: RetryPolicy, interval: u64)
    requires
        policy.wf(),
        interval <= policy.max_interval,
    ensures
        policy.spec_next_interval(interval) >= interval,
        policy.spec_next_interval(interval) <= policy.max_interval,
{
    let num = policy.mul_num as int;
    let den = policy.mul_den as int;
    let i = interval as int;
    assert(i * num >= i * den) by (nonlinear_arith)
        requires
            num >= den,
            i >= 0,
    ;
    assert(i * den / den == i) by (nonlinear_arith)
        requires
            den >= 1,
    ;
    assert(i * num / den >= i * den / den) by (nonlinear_arith)
        requires
            i * num >= i * den,
            den >= 1,
    ;
}

} // verus!
