use vstd::prelude::*;
use core::marker::PhantomData;
use crate::trace::{traced, type_tracked_is, Trace, Tracer};

verus! {

/// A strong reference to an object of type `T` that lives in a
/// `ThreadedObjectSpace`.
///
/// The handle is a plain token: it names its object and nothing else. The
/// space counts the handles of each object, so a copy is made with
/// `ThreadedObjectSpace::clone_ref` and given up with
/// `ThreadedObjectSpace::drop_ref`.
pub struct ThreadedCc<T> {
    id: usize,
    marker: PhantomData<T>,
}

impl<T> ThreadedCc<T> {
    /// The identifier of the object, as a number of the specification.
    pub closed spec fn target(&self) -> usize {
        self.id
    }

    /// A reference to the object `id`. Only the space makes one, when it has
    /// counted it.
    pub(crate) fn new(id: usize) -> (cc: ThreadedCc<T>)
        ensures
            cc.target() == id,
    {
        ThreadedCc { id, marker: PhantomData }
    }

    /// The identifier of the object in its space.
    pub fn id(&self) -> (id: usize)
        ensures
            id == self.target(),
    {
        self.id
    }
}

impl<T: Trace> Trace for ThreadedCc<T> {
    /// A handle refers to its object.
    open spec fn edges(&self) -> Option<Seq<usize>> {
        Some(seq![self.target()])
    }

    fn trace(&self, tracer: &mut Tracer) {
        tracer.visit(self.id);
    }

    /// A handle can be part of a cycle if its object can.
    fn is_type_tracked() -> (answer: bool)
        ensures
            type_tracked_is::<T>(answer),
    {
        T::is_type_tracked()
    }
}

/// What the registry needs of a stored value, whatever its type: the
/// collector walks it through this trait object.
pub trait CcDyn: Send + Sync {
    /// The references of the stored value, where the value alone decides them.
    open spec fn gc_edges(&self) -> Option<Seq<usize>> {
        None
    }

    /// Reports every outgoing reference of the stored value to `tracer`.
    fn gc_traverse(&self, tracer: &mut Tracer)
        ensures
            traced(old(tracer)@, self.gc_edges(), final(tracer)@),
    ;
}

/// A value as the registry stores it.
pub struct CcBox<T> {
    value: T,
}

impl<T> CcBox<T> {
    /// The stored value, as a value of the specification.
    pub closed spec fn inner(&self) -> T {
        self.value
    }

    /// Wraps `value` for storage.
    pub fn new(value: T) -> (boxed: CcBox<T>)
        ensures
            boxed.inner() == value,
    {
        CcBox { value }
    }

    /// The stored value.
    pub fn get(&self) -> (value: &T)
        ensures
            *value == self.inner(),
    {
        &self.value
    }
}

impl<T: Trace + Send + Sync> CcDyn for CcBox<T> {
    open spec fn gc_edges(&self) -> Option<Seq<usize>> {
        self.inner().edges()
    }

    fn gc_traverse(&self, tracer: &mut Tracer) {
        self.value.trace(tracer);
    }
}

} // verus!
