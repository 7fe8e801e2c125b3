//! A value together with a mark that tells whether it was asked for lately.

use vstd::prelude::*;

verus! {

/// A value and whether it has been remembered since the mark was last
/// cleared. What is not remembered may be thrown away.
#[derive(Debug)]
pub struct Memory<T> {
    pub value: T,
    pub remembered: bool,
}

impl<T> Memory<T> {
    /// Wraps a value; it starts out not remembered.
    pub fn new(value: T) -> (memory: Self)
        ensures
            memory.value == value,
            !memory.remembered,
    {
        Self { value, remembered: false }
    }
}

} // verus!
