//! Remembering the previous state of a value across steps.

use vstd::prelude::*;

verus! {

/// A value together with a copy of what it was at the last step, so that a
/// change between two steps can be seen.
#[derive(Clone, Debug)]
pub struct Tracker<T: Clone> {
    last: T,
    cur: T,
}

impl<T: Clone> Tracker<T> {
    /// The value as the last step left it.
    pub closed spec fn previous(&self) -> T {
        self.last
    }

    /// The value as it is now.
    pub closed spec fn current(&self) -> T {
        self.cur
    }

    /// Starts following `value`; the remembered state is a clone of it.
    pub fn new(value: T) -> (tracker: Tracker<T>)
        ensures
            tracker.current() == value,
            cloned(value, tracker.previous()),
    {
        Tracker { last: value.clone(), cur: value }
    }

    /// Ends a step: the current value, cloned, becomes the remembered one.
    pub fn step(&mut self)
        ensures
            final(self).current() == old(self).current(),
            cloned(old(self).current(), final(self).previous()),
    {
        self.last = self.cur.clone();
    }

    /// The value as the last step left it.
    pub fn last(&self) -> (last: &T)
        ensures
            *last == self.previous(),
    {
        &self.last
    }

    /// The value as it is now.
    pub fn get(&self) -> (cur: &T)
        ensures
            *cur == self.current(),
    {
        &self.cur
    }

    /// The value as it is now, to be changed in place; the remembered one
    /// stays.
    pub fn get_mut(&mut self) -> (cur: &mut T)
        ensures
            *cur == old(self).current(),
            final(self).current() == *final(cur),
            final(self).previous() == old(self).previous(),
    {
        &mut self.cur
    }

    /// Replaces the current value and leaves the remembered one.
    pub fn set(&mut self, value: T)
        ensures
            final(self).current() == value,
            final(self).previous() == old(self).previous(),
    {
        self.cur = value;
    }
}

} // verus!
