use vstd::prelude::*;
use crate::utils::IdCounter;

verus! {

/// The identifier of a line; `0` is the default one, which stands for no
/// particular line.
#[derive(Clone, Copy, PartialEq, Eq, Hash, Debug, Structural)]
pub struct LineId(pub usize);

impl LineId {
    /// A line identifier taken from `ids`.
    pub fn new(ids: &mut IdCounter) -> (r: Self)
        ensures
            r.0 == old(ids).peek(),
            final(ids).peek() == (if old(ids).peek() == usize::MAX { 0 } else { old(ids).peek() + 1 }),
    {
        LineId(ids.next_id())
    }

    /// The identifier `n`.
    pub fn from_usize(n: usize) -> (r: Self)
        ensures
            r.0 == n,
    {
        LineId(n)
    }

    /// The default identifier, `0`.
    pub fn default_id() -> (r: Self)
        ensures
            r.0 == 0,
    {
        LineId(0)
    }
}

/// A payload of data carried on a line.
pub struct Payload {
    pub body: String,
}

/// One of the two ends of something; both ends carry a value of the same type.
#[derive(Clone, Copy, PartialEq, Eq, Hash, Debug, Structural)]
pub enum OneOfTwo<T> {
    First(T),
    Second(T),
}

impl<T> OneOfTwo<T> {
    /// The value at either end.
    pub open spec fn spec_val(&self) -> T {
        match self {
            OneOfTwo::First(x) => *x,
            OneOfTwo::Second(x) => *x,
        }
    }

    pub fn as_val_ref(&self) -> (r: &T)
        ensures
            *r == self.spec_val(),
    {
        match self {
            OneOfTwo::First(x) => x,
            OneOfTwo::Second(x) => x,
        }
    }
}

/// The identifier of one end of a line.
pub type LineTransceiverId = OneOfTwo<LineId>;

/// The other end of the same line.
pub fn other_end(id: LineTransceiverId) -> (r: LineTransceiverId)
    ensures
        r.spec_val() == id.spec_val(),
        (id is First) == (r is Second),
{
    match id {
        OneOfTwo::First(x) => OneOfTwo::Second(x),
        OneOfTwo::Second(x) => OneOfTwo::First(x),
    }
}

/// The delay with which a line carries what is sent on it, in nanoseconds.
#[derive(Clone, Copy, PartialEq, Eq, Structural)]
pub struct LineDelay {
    pub propagation_delay_nanos: u64,
}

impl LineDelay {
    pub fn new(propagation_delay_nanos: u64) -> (r: Self)
        ensures
            r.propagation_delay_nanos == propagation_delay_nanos,
    {
        LineDelay { propagation_delay_nanos }
    }

    /// A delay of `millis` milliseconds; a delay counts in nanoseconds up
    /// to `u64::MAX`.
    pub fn from_millis(millis: u64) -> (r: Self)
        requires
            millis * 1_000_000 <= u64::MAX,
        ensures
            r.propagation_delay_nanos == millis * 1_000_000,
    {
        LineDelay { propagation_delay_nanos: millis * 1_000_000 }
    }

    /// The delay after which what was sent is expected to have arrived: the
    /// propagation delay and a fifth of it.
    pub open spec fn spec_probable_delay(&self) -> u128 {
        (self.propagation_delay_nanos + self.propagation_delay_nanos / 5) as u128
    }

    pub fn probable_delay(&self) -> (r: u128)
        ensures
            r == self.spec_probable_delay(),
    {
        self.propagation_delay_nanos as u128 + (self.propagation_delay_nanos / 5) as u128
    }
}

} // verus!
