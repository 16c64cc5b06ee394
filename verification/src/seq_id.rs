use vstd::prelude::*;
use crate::sequencial_id::SequencialId;

verus! {

/// A sequence number that wraps round to `1` after `u32::MAX`.
#[derive(Clone, Copy, PartialEq, Eq, Structural)]
pub struct SeqId(pub u32);

impl SeqId {
    fn last() -> (r: Self)
        ensures
            r.0 == u32::MAX,
    {
        SeqId(u32::MAX)
    }
}

impl SequencialId for SeqId {
    open spec fn spec_first() -> Self {
        SeqId(1)
    }

    open spec fn spec_next(&self) -> Self {
        if self.0 < u32::MAX {
            SeqId((self.0 + 1) as u32)
        } else {
            SeqId(1)
        }
    }

    open spec fn has_next(&self) -> bool {
        true
    }

    fn first() -> (r: Self) {
        SeqId(1)
    }

    fn next(&self) -> (r: Self) {
        SeqId(if self.0 < Self::last().0 { self.0 + 1 } else { Self::first().0 })
    }
}

/// The identifier of a line, handed out in sequence; `u32::MAX` stands for any line.
#[derive(Clone, Copy, PartialEq, Eq, Structural)]
pub struct LineId(pub u32);

impl LineId {
    /// The identifier that stands for any line.
    pub fn any() -> (r: Self)
        ensures
            r.0 == u32::MAX,
    {
        LineId(u32::MAX)
    }

    fn last() -> (r: Self)
        ensures
            r.0 == u32::MAX - 1,
    {
        LineId(u32::MAX - 1)
    }
}

impl SequencialId for LineId {
    open spec fn spec_first() -> Self {
        LineId(1)
    }

    open spec fn spec_next(&self) -> Self {
        LineId((self.0 + 1) as u32)
    }

    /// No line follows the last one, `u32::MAX - 1`.
    open spec fn has_next(&self) -> bool {
        self.0 < u32::MAX - 1
    }

    fn first() -> (r: Self) {
        LineId(1)
    }

    fn next(&self) -> (r: Self) {
        LineId(self.0 + 1)
    }
}

/// A generator of line identifiers never holds the one that stands for any
/// line: the first is not it, and moving on from any identifier that has a
/// next one does not reach it.
pub proof fn lemma_line_ids_are_never_any(x: LineId)
    ensures
        <LineId as SequencialId>::spec_first().0 != u32::MAX,
        x.has_next() ==> x.spec_next().0 != u32::MAX,
{
}

} // verus!
