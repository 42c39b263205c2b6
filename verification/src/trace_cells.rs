use vstd::prelude::*;
use crate::trace::{traced, type_tracked_is, Trace, Tracer};

verus! {

// Cells and locks can change what they hold behind a shared reference: what
// they refer to is read when they are traced, and `edges` does not spell it
// out.

/// `core::cell::Cell`: an opaque type to the verifier.
#[verifier::external_type_specification]
#[verifier::external_body]
#[verifier::reject_recursive_types(T)]
pub struct ExCell<T: ?Sized>(core::cell::Cell<T>);

/// `core::cell::RefCell`: an opaque type to the verifier.
#[verifier::external_type_specification]
#[verifier::external_body]
#[verifier::reject_recursive_types(T)]
pub struct ExRefCell<T: ?Sized>(core::cell::RefCell<T>);

/// `core::cell::Ref`, a shared borrow of what a `RefCell` holds: an opaque
/// type to the verifier.
#[verifier::external_type_specification]
#[verifier::external_body]
#[verifier::reject_recursive_types(T)]
pub struct ExRef<'b, T: ?Sized>(core::cell::Ref<'b, T>);

/// `core::cell::OnceCell`: an opaque type to the verifier.
#[verifier::external_type_specification]
#[verifier::external_body]
#[verifier::reject_recursive_types(T)]
pub struct ExOnceCell<T>(core::cell::OnceCell<T>);

/// `std::sync::Mutex`: an opaque type to the verifier.
#[verifier::external_type_specification]
#[verifier::external_body]
#[verifier::reject_recursive_types(T)]
pub struct ExMutex<T: ?Sized>(std::sync::Mutex<T>);

/// `std::sync::MutexGuard`, a held `Mutex`: an opaque type to the verifier.
#[verifier::external_type_specification]
#[verifier::external_body]
#[verifier::reject_recursive_types(T)]
pub struct ExMutexGuard<'a, T: ?Sized + 'a>(std::sync::MutexGuard<'a, T>);

/// `std::sync::RwLock`: an opaque type to the verifier.
#[verifier::external_type_specification]
#[verifier::external_body]
#[verifier::reject_recursive_types(T)]
pub struct ExRwLock<T: ?Sized>(std::sync::RwLock<T>);

/// `std::sync::RwLockWriteGuard`, an `RwLock` held in exclusive mode: an
/// opaque type to the verifier.
#[verifier::external_type_specification]
#[verifier::external_body]
#[verifier::reject_recursive_types(T)]
pub struct ExRwLockWriteGuard<'a, T: ?Sized + 'a>(std::sync::RwLockWriteGuard<'a, T>);

/// `Cell::get`: a copy of what the cell holds now.
#[verifier::external_body]
fn cell_get<T: Copy>(cell: &core::cell::Cell<T>) -> T {
    cell.get()
}

/// `RefCell::try_borrow`: a shared borrow of what the cell holds, or `None`
/// while it is mutably borrowed.
#[verifier::external_body]
fn ref_cell_try_borrow<'a, T>(cell: &'a core::cell::RefCell<T>) -> Option<core::cell::Ref<'a, T>> {
    match cell.try_borrow() {
        Ok(borrowed) => Some(borrowed),
        Err(_) => None,
    }
}

/// The `Deref` of `core::cell::Ref`: what is borrowed.
#[verifier::external_body]
fn ref_target<'a, 'b, T>(borrowed: &'a core::cell::Ref<'b, T>) -> &'a T {
    &**borrowed
}

/// `OnceCell::get`: what the cell holds, or `None` before it is set.
#[verifier::external_body]
fn once_cell_get<'a, T>(cell: &'a core::cell::OnceCell<T>) -> Option<&'a T> {
    cell.get()
}

/// `std::sync::Mutex::try_lock`: the lock, or `None` while it is held or
/// poisoned.
#[verifier::external_body]
fn mutex_try_lock<'a, T>(lock: &'a std::sync::Mutex<T>) -> Option<std::sync::MutexGuard<'a, T>> {
    match lock.try_lock() {
        Ok(guard) => Some(guard),
        Err(_) => None,
    }
}

/// The `Deref` of `std::sync::MutexGuard`: what the held lock guards.
#[verifier::external_body]
fn mutex_target<'a, 'b, T>(guard: &'a std::sync::MutexGuard<'b, T>) -> &'a T {
    &**guard
}

/// `std::sync::RwLock::try_write`: the lock in exclusive mode, or `None`
/// while it is held in any mode or poisoned.
#[verifier::external_body]
fn rw_lock_try_write<'a, T>(lock: &'a std::sync::RwLock<T>) -> Option<std::sync::RwLockWriteGuard<'a, T>> {
    match lock.try_write() {
        Ok(guard) => Some(guard),
        Err(_) => None,
    }
}

/// The `Deref` of `std::sync::RwLockWriteGuard`: what the held lock guards.
#[verifier::external_body]
fn rw_lock_target<'a, 'b, T>(guard: &'a std::sync::RwLockWriteGuard<'b, T>) -> &'a T {
    &**guard
}

/// What tracing one value of type `T` may do to a tracer.
pub open spec fn traced_one<T: Trace>(before: Seq<usize>, after: Seq<usize>) -> bool {
    exists|inner: T| traced(before, inner.edges(), after)
}

/// What tracing a cell or lock around a `T` may do to a tracer: nothing,
/// where the cell does not give out what it holds, or what tracing the value
/// that it holds at that moment does.
pub open spec fn traced_through<T: Trace>(before: Seq<usize>, after: Seq<usize>) -> bool {
    after == before || traced_one::<T>(before, after)
}

/// Traces what a cell or lock handed out, if it handed out anything.
pub fn trace_found<T: Trace>(found: Option<&T>, tracer: &mut Tracer)
    ensures
        match found {
            Some(inner) => traced(old(tracer)@, inner.edges(), final(tracer)@),
            None => final(tracer)@ == old(tracer)@,
        },
        traced_through::<T>(old(tracer)@, final(tracer)@),
{
    match found {
        Some(inner) => {
            inner.trace(tracer);
            assert(traced(old(tracer)@, inner.edges(), tracer@));
        },
        None => {},
    }
}

impl<T: Copy + Trace> Trace for core::cell::Cell<T> {
    /// Reports what the value that the cell holds at this moment refers to.
    fn trace(&self, tracer: &mut Tracer)
        ensures
            traced_one::<T>(old(tracer)@, final(tracer)@),
    {
        let inner = cell_get(self);
        inner.trace(tracer);
        assert(traced(old(tracer)@, inner.edges(), tracer@));
    }

    fn is_type_tracked() -> (answer: bool)
        ensures
            type_tracked_is::<T>(answer),
    {
        T::is_type_tracked()
    }
}

impl<T: Trace> Trace for core::cell::RefCell<T> {
    /// Reports what the value in the cell refers to. A cell that is mutably
    /// borrowed is not traced: whoever borrows it keeps what it holds alive.
    fn trace(&self, tracer: &mut Tracer)
        ensures
            traced_through::<T>(old(tracer)@, final(tracer)@),
    {
        let borrowed = ref_cell_try_borrow(self);
        let found = match &borrowed {
            Some(inner) => Some(ref_target(inner)),
            None => None,
        };
        trace_found(found, tracer);
    }

    fn is_type_tracked() -> (answer: bool)
        ensures
            type_tracked_is::<T>(answer),
    {
        T::is_type_tracked()
    }
}

impl<T: Trace> Trace for core::cell::OnceCell<T> {
    /// Reports what the value in the cell refers to, once the cell is set.
    fn trace(&self, tracer: &mut Tracer)
        ensures
            traced_through::<T>(old(tracer)@, final(tracer)@),
    {
        trace_found(once_cell_get(self), tracer);
    }

    fn is_type_tracked() -> (answer: bool)
        ensures
            type_tracked_is::<T>(answer),
    {
        T::is_type_tracked()
    }
}

impl<T: Trace> Trace for std::sync::Mutex<T> {
    /// Reports what the guarded value refers to. A lock that is held is not
    /// traced: whoever holds it keeps what it guards alive.
    fn trace(&self, tracer: &mut Tracer)
        ensures
            traced_through::<T>(old(tracer)@, final(tracer)@),
    {
        let guard = mutex_try_lock(self);
        let found = match &guard {
            Some(held) => Some(mutex_target(held)),
            None => None,
        };
        trace_found(found, tracer);
    }

    fn is_type_tracked() -> (answer: bool)
        ensures
            type_tracked_is::<T>(answer),
    {
        T::is_type_tracked()
    }
}

impl<T: Trace> Trace for std::sync::RwLock<T> {
    /// Reports what the guarded value refers to. A lock that is held in any
    /// mode is not traced.
    fn trace(&self, tracer: &mut Tracer)
        ensures
            traced_through::<T>(old(tracer)@, final(tracer)@),
    {
        let guard = rw_lock_try_write(self);
        let found = match &guard {
            Some(held) => Some(rw_lock_target(held)),
            None => None,
        };
        trace_found(found, tracer);
    }

    fn is_type_tracked() -> (answer: bool)
        ensures
            type_tracked_is::<T>(answer),
    {
        T::is_type_tracked()
    }
}

} // verus!
