use vstd::prelude::*;

verus! {

/// A type of identifiers that come one after another, starting at `first`.
pub trait SequencialId: Copy + PartialEq + Sized {
    /// The first identifier.
    spec fn spec_first() -> Self;

    /// The identifier that follows `self`.
    spec fn spec_next(&self) -> Self;

    /// Whether an identifier follows `self`.
    spec fn has_next(&self) -> bool;

    fn first() -> (r: Self)
        ensures
            r == Self::spec_first(),
    ;

    fn next(&self) -> (r: Self)
        requires
            self.has_next(),
        ensures
            r == self.spec_next(),
    ;
}

/// A generator that hands out identifiers in sequence.
pub enum SequencialGenerator<T: SequencialId> {
    Next(T),
}

impl<T: SequencialId> SequencialGenerator<T> {
    /// The identifier the generator holds now.
    pub open spec fn spec_value(&self) -> T {
        match self {
            SequencialGenerator::Next(x) => *x,
        }
    }

    /// A generator that holds the first identifier.
    pub fn new() -> (r: Self)
        ensures
            r.spec_value() == T::spec_first(),
    {
        SequencialGenerator::Next(T::first())
    }

    /// Moves the generator on to the identifier that follows the one it holds.
    pub fn next(&mut self) -> (r: &mut Self)
        requires
            old(self).spec_value().has_next(),
        ensures
            r.spec_value() == old(self).spec_value().spec_next(),
            *final(self) == *final(r),
    {
        let n = match self {
            SequencialGenerator::Next(x) => T::next(x),
        };
        *self = SequencialGenerator::Next(n);
        self
    }

    /// The identifier the generator holds.
    pub fn value(&self) -> (r: T)
        ensures
            r == self.spec_value(),
    {
        match self {
            SequencialGenerator::Next(x) => *x,
        }
    }
}

} // verus!
