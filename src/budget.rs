//! The budget breaker: the running cost of all requests and the spending limit.

use vstd::prelude::*;

verus! {

/// The running cost of all requests and the spending limit, both in pico-units.
#[derive(Clone, Copy, Debug, PartialEq, Eq, Structural)]
pub struct BudgetController {
    pub total: u64,
    pub limit: u64,
}

/// Whether a request may start, with the running cost and the limit.
#[derive(Clone, Copy, Debug, PartialEq, Eq, Structural)]
pub struct GateReport {
    pub allowed: bool,
    pub current: u64,
    pub limit: u64,
}

/// `total + n`, held at the largest `u64` where it would pass it.
pub open spec fn saturating_total(total: u64, n: u64) -> u64 {
    if total + n > u64::MAX {
        u64::MAX
    } else {
        (total + n) as u64
    }
}

impl BudgetController {
    /// A controller with nothing spent and the given limit.
    pub fn new(limit: u64) -> (r: BudgetController)
        ensures
            r.total == 0,
            r.limit == limit,
    {
        BudgetController { total: 0, limit }
    }

    /// The running cost.
    pub fn current(&self) -> (r: u64)
        ensures
            r == self.total,
    {
        self.total
    }

    /// The spending limit.
    pub fn limit(&self) -> (r: u64)
        ensures
            r == self.limit,
    {
        self.limit
    }

    /// Replaces the spending limit; the running cost stays.
    pub fn set_limit(&mut self, limit: u64)
        ensures
            final(self).limit == limit,
            final(self).total == old(self).total,
    {
        self.limit = limit;
    }

    /// Adds `n` pico-units to the running cost (held at the largest `u64`).
    pub fn add_picos(&mut self, n: u64)
        ensures
            final(self).total == saturating_total(old(self).total, n),
            final(self).limit == old(self).limit,
    {
        self.total = if n > u64::MAX - self.total {
            u64::MAX
        } else {
            self.total + n
        };
    }

    /// Sets the running cost to zero; the limit stays.
    pub fn reset(&mut self)
        ensures
            final(self).total == 0,
            final(self).limit == old(self).limit,
    {
        self.total = 0;
    }

    /// A request may start only while the running cost is below the limit.
    pub fn gate(&self) -> (r: GateReport)
        ensures
            r.allowed == (self.total < self.limit),
            r.current == self.total,
            r.limit == self.limit,
    {
        GateReport { allowed: self.total < self.limit, current: self.total, limit: self.limit }
    }
}

} // verus!
