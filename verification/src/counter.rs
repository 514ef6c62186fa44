//! A counter payload: the simplest state a `Subsystem` can wrap.

use vstd::prelude::*;

use crate::subsystem::Operation;

verus! {

/// The fixed value a fresh counter starts from.
pub const INITIAL_COUNT: u64 = 13;

/// A counter holding a single value.
pub struct Counter {
    value: u64,
}

impl View for Counter {
    type V = u64;

    closed spec fn view(&self) -> u64 {
        self.value
    }
}

impl Counter {
    /// Create a counter holding the fixed initial value.
    pub fn new() -> (c: Self)
        ensures
            c@ == INITIAL_COUNT,
    {
        Self { value: INITIAL_COUNT }
    }

    /// Read the current value.
    pub fn get(&self) -> (r: u64)
        ensures
            r == self@,
    {
        self.value
    }

    /// Add `amount` to the value and return the new value.
    pub fn add_and_get(&mut self, amount: u64) -> (r: u64)
        requires
            old(self)@ + amount <= u64::MAX,
        ensures
            final(self)@ == old(self)@ + amount,
            r == final(self)@,
    {
        self.value = self.value + amount;
        self.value
    }
}

/// One schedulable operation against a `Counter`.
pub enum CounterOp {
    /// Hand back the current value.
    Get,
    /// Add the amount and hand back the new value.
    AddAndGet(u64),
}

impl Operation<Counter> for CounterOp {
    type Output = u64;

    open spec fn enabled(&self, s: u64) -> bool {
        match self {
            CounterOp::Get => true,
            CounterOp::AddAndGet(n) => s + *n <= u64::MAX,
        }
    }

    open spec fn next(&self, s: u64) -> u64 {
        match self {
            CounterOp::Get => s,
            CounterOp::AddAndGet(n) => (s + *n) as u64,
        }
    }

    open spec fn output(&self, s: u64) -> u64 {
        match self {
            CounterOp::Get => s,
            CounterOp::AddAndGet(n) => (s + *n) as u64,
        }
    }

    fn apply(self, state: &mut Counter) -> (r: u64) {
        match self {
            CounterOp::Get => state.get(),
            CounterOp::AddAndGet(n) => state.add_and_get(n),
        }
    }
}

} // verus!
