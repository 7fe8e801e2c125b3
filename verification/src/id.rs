//! Sequential identifier allocation.

use vstd::prelude::*;

verus! {

/// Hands out identifiers `0, 1, 2, ...` in order. Each owner of a namespace
/// (an atlas, a scene) holds its own factory; there is no shared counter.
#[derive(Debug)]
pub struct IDFactory {
    counter: u32,
}

impl IDFactory {
    /// The identifier that the following call of `next` returns.
    pub closed spec fn upcoming(&self) -> u32 {
        self.counter
    }

    pub fn new() -> (factory: Self)
        ensures
            factory.upcoming() == 0,
    {
        Self { counter: 0 }
    }

    /// Returns a fresh identifier, larger than every one returned since the
    /// last `reset`.
    pub fn next(&mut self) -> (id: u32)
        requires
            old(self).upcoming() < u32::MAX,
        ensures
            id == old(self).upcoming(),
            final(self).upcoming() == id + 1,
    {
        let id = self.counter;
        self.counter = self.counter + 1;
        id
    }

    /// Whether `next` can still hand out an identifier.
    pub fn exhausted(&self) -> (full: bool)
        ensures
            full == (self.upcoming() == u32::MAX),
    {
        self.counter == u32::MAX
    }

    pub fn reset(&mut self)
        ensures
            final(self).upcoming() == 0,
    {
        self.counter = 0;
    }
}

} // verus!
