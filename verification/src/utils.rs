use vstd::prelude::*;
use core::marker::PhantomData;
use crate::pipe::LayerState;

verus! {

/// Yields its value once.
pub struct TakeIter<T>(Option<T>);

impl<T> TakeIter<T> {
    /// Whether the value is still to be yielded, and which it is.
    pub closed spec fn pending(&self) -> Option<T> {
        self.0
    }

    pub fn new(val: T) -> (r: Self)
        ensures
            r.pending() == Some(val),
    {
        TakeIter(Some(val))
    }

    /// The value on the first call, nothing afterwards.
    pub fn next(&mut self) -> (r: Option<T>)
        ensures
            r == old(self).pending(),
            final(self).pending() == None::<T>,
    {
        self.0.take()
    }
}

/// Yields nothing.
pub struct NoneIter<T>(PhantomData<T>);

impl<T> NoneIter<T> {
    pub fn new() -> Self {
        NoneIter(PhantomData)
    }

    /// Always nothing.
    pub fn next(&mut self) -> (r: Option<T>)
        ensures
            r == None::<T>,
    {
        None
    }
}

impl LayerState for IdCounter {
    open spec fn state_ok(&self) -> bool {
        true
    }
}

/// A source of identifiers that counts up from `1`, wrapping round after
/// `usize::MAX`.
pub struct IdCounter {
    next: usize,
}

impl IdCounter {
    /// The identifier the counter hands out next.
    pub closed spec fn peek(&self) -> usize {
        self.next
    }

    pub fn new() -> (r: Self)
        ensures
            r.peek() == 1,
    {
        IdCounter { next: 1 }
    }

    /// Hands out the next identifier.
    pub fn next_id(&mut self) -> (r: usize)
        ensures
            r == old(self).peek(),
            final(self).peek() == (if old(self).peek() == usize::MAX { 0 } else { old(self).peek() + 1 }),
    {
        let r = self.next;
        self.next = self.next.wrapping_add(1);
        r
    }
}

} // verus!
