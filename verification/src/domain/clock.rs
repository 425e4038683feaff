//! Clocks that only move when they are told to, and identifiers that come in a
//! fixed order.

use crate::domain::id::{EntityId, OperationId};
use vstd::prelude::*;

verus! {

/// A source of the time in milliseconds.
pub trait Clock {
    fn now_millis(&self) -> u64;
}

/// A clock that stands still until it is advanced.
#[derive(Debug, Clone, Copy)]
pub struct FrozenClock {
    current: u64,
}

impl View for FrozenClock {
    type V = u64;

    closed spec fn view(&self) -> u64 {
        self.current
    }
}

impl FrozenClock {
    pub fn new(start: u64) -> (r: Self)
        ensures
            r@ == start,
    {
        FrozenClock { current: start }
    }

    pub fn advance(&mut self, millis: u64)
        requires
            old(self)@ + millis <= u64::MAX,
        ensures
            final(self)@ == old(self)@ + millis,
    {
        self.current = self.current + millis;
    }

    pub fn now_millis(&self) -> (r: u64)
        ensures
            r == self@,
    {
        self.current
    }
}

impl Clock for FrozenClock {
    fn now_millis(&self) -> (r: u64)
        ensures
            r == self@,
    {
        self.current
    }
}

/// Hands out identifiers that count up from a seed: entities from the seed,
/// operations from a thousand above it.
#[derive(Debug, Clone, Copy)]
pub struct DeterministicIdGen {
    entity_counter: u128,
    operation_counter: u128,
}

impl DeterministicIdGen {
    /// The last entity identifier that was handed out.
    pub closed spec fn last_entity(self) -> u128 {
        self.entity_counter
    }

    /// The last operation identifier that was handed out.
    pub closed spec fn last_operation(self) -> u128 {
        self.operation_counter
    }

    pub fn new(seed: u128) -> (r: Self)
        requires
            seed + 1000 <= u128::MAX,
        ensures
            r.last_entity() == seed,
            r.last_operation() == seed + 1000,
    {
        DeterministicIdGen { entity_counter: seed, operation_counter: seed + 1000 }
    }

    pub fn next_entity_id(&mut self) -> (r: EntityId)
        requires
            old(self).last_entity() < u128::MAX,
        ensures
            final(self).last_entity() == old(self).last_entity() + 1,
            final(self).last_operation() == old(self).last_operation(),
            r == EntityId(final(self).last_entity()),
    {
        self.entity_counter = self.entity_counter + 1;
        EntityId(self.entity_counter)
    }

    /// Whether `n` more entities can be identified.
    pub fn has_room(&self, n: u64) -> (r: bool)
        ensures
            r == (self.last_entity() + n <= u128::MAX),
    {
        self.entity_counter <= u128::MAX - n as u128
    }

    pub fn next_operation_id(&mut self) -> (r: OperationId)
        requires
            old(self).last_operation() < u128::MAX,
        ensures
            final(self).last_operation() == old(self).last_operation() + 1,
            final(self).last_entity() == old(self).last_entity(),
            r == OperationId(final(self).last_operation()),
    {
        self.operation_counter = self.operation_counter + 1;
        OperationId(self.operation_counter)
    }
}

/// A source of time for tests, advanced by hand.
#[derive(Debug, Clone, Copy)]
pub struct TestTimeSource {
    current: u64,
}

impl View for TestTimeSource {
    type V = u64;

    closed spec fn view(&self) -> u64 {
        self.current
    }
}

impl TestTimeSource {
    pub fn new(start: u64) -> (r: Self)
        ensures
            r@ == start,
    {
        TestTimeSource { current: start }
    }

    pub fn advance(&mut self, millis: u64)
        requires
            old(self)@ + millis <= u64::MAX,
        ensures
            final(self)@ == old(self)@ + millis,
    {
        self.current = self.current + millis;
    }

    pub fn now(&self) -> (r: u64)
        ensures
            r == self@,
    {
        self.current
    }
}

} // verus!
