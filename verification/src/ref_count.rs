use vstd::prelude::*;

verus! {

/// The reference-count cell of one object: how many strong references point
/// to the object, and whether the object is linked into its registry.
///
/// The cell lives in the registry, whose structural lock serialises every
/// change of it.
pub struct ThreadedRefCount {
    strong: usize,
    linked_flag: bool,
}

impl ThreadedRefCount {
    /// The number of strong references, as a number of the specification.
    pub closed spec fn count(&self) -> nat {
        self.strong as nat
    }

    /// Whether the cell belongs to an object that the collector scans.
    pub closed spec fn flagged(&self) -> bool {
        self.linked_flag
    }

    /// A cell for an object with one strong reference, the one handed to its
    /// creator.
    pub fn new(track: bool) -> (cell: ThreadedRefCount)
        ensures
            cell.count() == 1,
            cell.flagged() == track,
    {
        ThreadedRefCount { strong: 1, linked_flag: track }
    }

    /// A cell without any reference, as an unused slot holds it.
    pub fn vacant() -> (cell: ThreadedRefCount)
        ensures
            cell.count() == 0,
            !cell.flagged(),
    {
        ThreadedRefCount { strong: 0, linked_flag: false }
    }

    /// The number of strong references.
    pub fn ref_count(&self) -> (n: usize)
        ensures
            n == self.count(),
    {
        self.strong
    }

    /// Whether the object opted into cycle collection.
    pub fn is_tracked(&self) -> (answer: bool)
        ensures
            answer == self.flagged(),
    {
        self.linked_flag
    }

    /// Whether one more reference can be counted.
    pub fn can_inc(&self) -> (answer: bool)
        ensures
            answer == (self.count() < usize::MAX),
    {
        self.strong < usize::MAX
    }

    /// Counts one more strong reference and returns the count before.
    pub fn inc_ref(&mut self) -> (before: usize)
        requires
            old(self).count() < usize::MAX,
        ensures
            before == old(self).count(),
            final(self).count() == old(self).count() + 1,
            final(self).flagged() == old(self).flagged(),
    {
        let before = self.strong;
        self.strong = before + 1;
        before
    }

    /// Gives one strong reference up and returns the count before. The object
    /// is to be freed when this returns 1.
    pub fn dec_ref(&mut self) -> (before: usize)
        requires
            old(self).count() > 0,
        ensures
            before == old(self).count(),
            final(self).count() == old(self).count() - 1,
            final(self).flagged() == old(self).flagged(),
    {
        let before = self.strong;
        self.strong = before - 1;
        before
    }
}

} // verus!
