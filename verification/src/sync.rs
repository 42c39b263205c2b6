use vstd::prelude::*;
use crate::cc::{CcBox, CcDyn, ThreadedCc};
use crate::graph::{find_unreachable, Node};
use crate::registry::Registry;
use crate::view::{ObjectView, RegistryView};
use crate::trace::Trace;

verus! {

/// `parking_lot::RawMutex`, the raw lock inside `parking_lot::Mutex`: an opaque
/// type to the verifier.
#[verifier::external_type_specification]
#[verifier::external_body]
pub struct ExRawMutex(parking_lot::RawMutex);

/// `parking_lot::RawRwLock`, the raw lock inside `parking_lot::RwLock`: an
/// opaque type to the verifier.
#[verifier::external_type_specification]
#[verifier::external_body]
pub struct ExRawRwLock(parking_lot::RawRwLock);

/// `lock_api::Mutex`, of which `parking_lot::Mutex` is an instance: an opaque
/// type to the verifier.
#[verifier::external_type_specification]
#[verifier::external_body]
#[verifier::reject_recursive_types(R)]
#[verifier::reject_recursive_types(T)]
pub struct ExMutex<R, T: ?Sized>(parking_lot::lock_api::Mutex<R, T>);

/// `lock_api::RwLock`, of which `parking_lot::RwLock` is an instance: an
/// opaque type to the verifier.
#[verifier::external_type_specification]
#[verifier::external_body]
#[verifier::reject_recursive_types(R)]
#[verifier::reject_recursive_types(T)]
pub struct ExRwLock<R, T: ?Sized>(parking_lot::lock_api::RwLock<R, T>);

/// A registry as the structural lock keeps it. Whatever the lock hands out is
/// a sound registry: the cell can only be filled with one. So the operations
/// of the cell ask nothing of their caller, and say of every registry that
/// the lock may hand out what they do to it.
pub struct RegistryCell {
    inner: Registry,
}

impl RegistryCell {
    #[verifier::type_invariant]
    spec fn sound(&self) -> bool {
        self.inner.wf()
    }

    /// The registry in the cell, as the specification sees it.
    pub closed spec fn view(&self) -> RegistryView {
        self.inner@
    }

    /// A cell with a registry without objects.
    pub fn new() -> (cell: RegistryCell)
        ensures
            cell.view().order == Seq::<usize>::empty(),
            cell.view().objects == Seq::<ObjectView>::empty(),
    {
        RegistryCell { inner: Registry::new() }
    }

    /// The registry in the cell, to read it.
    fn peek(&self) -> (registry: &Registry)
        ensures
            registry.wf(),
            registry@ == self.view(),
    {
        proof {
            use_type_invariant(self);
        }
        &self.inner
    }

    /// Takes the registry out to change it, and leaves one without objects.
    fn take(&mut self) -> (registry: Registry)
        ensures
            registry.wf(),
            registry@ == old(self).view(),
    {
        proof {
            use_type_invariant(&*self);
        }
        let mut registry = Registry::new();
        core::mem::swap(&mut registry, &mut self.inner);
        registry
    }

    /// Puts a registry back.
    fn put(&mut self, registry: Registry)
        requires
            registry.wf(),
        ensures
            final(self).view() == registry@,
    {
        self.inner = registry;
    }

    /// Counts the tracked objects by walking the list once.
    pub fn count_tracked(&self) -> (count: usize)
        ensures
            count == self.view().order.len(),
    {
        self.peek().count_tracked()
    }

    /// The number of strong references to the object in slot `id`: zero for a
    /// slot that is unused or does not exist.
    pub fn ref_count(&self, id: usize) -> (count: usize)
        ensures
            count == (if id < self.view().objects.len() {
                self.view().objects[id as int].count
            } else {
                0
            }),
    {
        self.peek().ref_count(id)
    }

    /// Stores a fresh object with one strong reference in an unused slot and
    /// returns the slot. With `track` set the object is linked right behind
    /// the sentinel.
    pub fn create(&mut self, value: Box<dyn CcDyn>, track: bool) -> (id: usize)
        ensures
            id <= old(self).view().objects.len(),
            !old(self).view().occupied(id),
            final(self).view().objects[id as int].value is Some,
            final(self).view().objects[id as int].value->0 == value,
            final(self).view() == old(self).view().created(
                id,
                final(self).view().objects[id as int].value,
                track,
            ),
    {
        let mut registry = self.take();
        let stored = Some(value);
        let id = registry.create_stored(stored, track);
        assert(registry@.objects[id as int].value == stored);
        self.put(registry);
        id
    }

    /// Counts one more strong reference to the object in slot `id`, if it has
    /// one to copy and the count has room. Returns whether it did.
    pub fn clone_ref(&mut self, id: usize) -> (done: bool)
        ensures
            done == old(self).view().can_retain(id),
            final(self).view() == (if done {
                old(self).view().retained(id)
            } else {
                old(self).view()
            }),
    {
        let mut registry = self.take();
        let done = registry.clone_ref(id);
        self.put(registry);
        done
    }

    /// Gives up one strong reference to the object in slot `id`, and hands
    /// out the value of an object that this frees.
    pub fn release(&mut self, id: usize) -> (value: Option<Box<dyn CcDyn>>)
        ensures
            final(self).view() == old(self).view().released(id),
            value == (if old(self).view().frees(id) {
                old(self).view().objects[id as int].value
            } else {
                None
            }),
    {
        let mut registry = self.take();
        let value = registry.release(id);
        self.put(registry);
        value
    }

    /// The scan of a collection pass: takes a snapshot `g` of the registry,
    /// finds the objects that are unreachable in it, holds them and takes
    /// their values. Returns the slots taken and their values.
    pub fn take_unreachable(&mut self) -> (taken: (Vec<usize>, Vec<Box<dyn CcDyn>>))
        ensures
            exists|g: Seq<Node>, garbage: Seq<bool>|
                {
                    &&& old(self).view().scanned(g)
                    &&& RegistryView::flags_unreachable(g, garbage)
                    &&& final(self).view() == old(self).view().holding(garbage)
                    &&& taken.0@ == old(self).view().taken(garbage)
                    &&& taken.1@ == old(self).view().taken_values(garbage)
                },
            taken.0@.no_duplicates(),
    {
        let graph = self.peek().scan();
        let garbage = find_unreachable(&graph);
        let mut registry = self.take();
        proof {
            registry.lemma_view_valid();
            registry@.lemma_chosen_distinct(garbage@, registry@.objects.len());
        }
        let taken = registry.begin_collect(&garbage);
        self.put(registry);
        proof {
            let g = graph@;
            let flags = garbage@;
            assert(old(self).view().scanned(g) && RegistryView::flags_unreachable(g, flags) && self.view() == old(
                self,
            ).view().holding(flags) && taken.0@ == old(self).view().taken(flags) && taken.1@ == old(
                self,
            ).view().taken_values(flags));
        }
        taken
    }

    /// The end of a collection pass, once the values are dropped: unlinks
    /// the objects in `ids` that the pass still holds and empties their
    /// slots. Returns how many it gave up.
    pub fn end_collect(&mut self, ids: &Vec<usize>) -> (freed: usize)
        ensures
            final(self).view() == old(self).view().swept(ids@),
            freed == old(self).view().swept_count(ids@),
    {
        let mut registry = self.take();
        let freed = registry.end_collect(ids);
        self.put(registry);
        freed
    }
}

/// The structural lock while it is held: a `parking_lot::MutexGuard`.
/// Dropping it releases the lock.
#[verifier::external_body]
struct ListGuard<'a> {
    guard: parking_lot::MutexGuard<'a, RegistryCell>,
}

/// The collector-exclusion lock held in shared mode: a
/// `parking_lot::RwLockReadGuard`. Dropping it releases the lock.
#[verifier::external_body]
pub struct AccessGuard<'a> {
    guard: parking_lot::RwLockReadGuard<'a, ()>,
}

/// The collector-exclusion lock held in exclusive mode: a
/// `parking_lot::RwLockWriteGuard`. Dropping it releases the lock.
#[verifier::external_body]
struct CollectGuard<'a> {
    guard: parking_lot::RwLockWriteGuard<'a, ()>,
}

/// `parking_lot::Mutex::new`: a structural lock around `cell`, not held.
#[verifier::external_body]
fn new_list_lock(cell: RegistryCell) -> parking_lot::Mutex<RegistryCell> {
    parking_lot::Mutex::new(cell)
}

/// `parking_lot::RwLock::new`: a collector-exclusion lock, not held.
#[verifier::external_body]
fn new_collector_lock() -> parking_lot::RwLock<()> {
    parking_lot::RwLock::new(())
}

/// `parking_lot::Mutex::lock`: blocks until the structural lock is free and
/// takes it. Nothing is claimed of the registry found under it. A thread
/// that holds the lock already would wait forever: no function of this
/// module asks for it twice.
#[verifier::external_body]
fn lock_list<'a>(lock: &'a parking_lot::Mutex<RegistryCell>) -> ListGuard<'a> {
    ListGuard { guard: lock.lock() }
}

/// The `DerefMut` of `parking_lot::MutexGuard`: the registry cell under the
/// held lock. Nothing is claimed of what it holds.
#[verifier::external_body]
fn locked<'a, 'b>(guard: &'a mut ListGuard<'b>) -> &'a mut RegistryCell {
    &mut *guard.guard
}

/// `parking_lot::RwLock::read_recursive`: blocks while a collection holds the
/// lock, then holds it in shared mode. A thread may ask again while it holds
/// the lock in shared mode.
#[verifier::external_body]
fn lock_shared<'a>(lock: &'a parking_lot::RwLock<()>) -> AccessGuard<'a> {
    AccessGuard { guard: lock.read_recursive() }
}

/// `parking_lot::RwLock::write`: blocks until no access is in flight, then
/// holds the lock in exclusive mode. A thread that holds the lock already, in
/// either mode, would wait forever.
#[verifier::external_body]
fn lock_exclusive<'a>(lock: &'a parking_lot::RwLock<()>) -> CollectGuard<'a> {
    CollectGuard { guard: lock.write() }
}

/// `parking_lot::RwLock::try_write`: the lock in exclusive mode if nobody
/// holds it right now, `None` otherwise. It never waits.
#[verifier::external_body]
fn try_lock_exclusive<'a>(lock: &'a parking_lot::RwLock<()>) -> Option<CollectGuard<'a>> {
    match lock.try_write() {
        Some(guard) => Some(CollectGuard { guard }),
        None => None,
    }
}

/// Drops the values of reclaimed objects.
fn discard(values: Vec<Box<dyn CcDyn>>) {
}

/// A collection of tracked objects that can be garbage collected, shared
/// between threads.
///
/// Two locks order every operation. The structural lock guards the registry:
/// the list and the reference counts. The collector-exclusion lock is held in
/// shared mode by whoever reads, changes or drops a stored value, and in
/// exclusive mode by a collection. Where both are needed, the
/// collector-exclusion lock is taken first.
pub struct ThreadedObjectSpace {
    list: parking_lot::Mutex<RegistryCell>,
    collector_lock: parking_lot::RwLock<()>,
}

impl Default for ThreadedObjectSpace {
    /// A space without objects.
    fn default() -> ThreadedObjectSpace {
        ThreadedObjectSpace::new()
    }
}

impl ThreadedObjectSpace {
    /// A space without objects.
    pub fn new() -> ThreadedObjectSpace {
        ThreadedObjectSpace { list: new_list_lock(RegistryCell::new()), collector_lock: new_collector_lock() }
    }

    /// Counts the tracked objects, under the structural lock.
    pub fn count_tracked(&self) -> usize {
        let mut guard = lock_list(&self.list);
        locked(&mut guard).count_tracked()
    }

    /// Stores `value` as a new object and returns the one strong reference
    /// to it. The object is tracked if its type can be part of a cycle.
    ///
    /// The value must not refer to objects of another space: the collector
    /// would not find a cycle that runs through both.
    pub fn create<T: Trace + Send + Sync + 'static>(&self, value: T) -> ThreadedCc<T> {
        let track = T::is_type_tracked();
        let boxed: Box<dyn CcDyn> = Box::new(CcBox::new(value));
        let mut guard = lock_list(&self.list);
        let id = locked(&mut guard).create(boxed, track);
        ThreadedCc::new(id)
    }

    /// Makes a second strong reference to the object of `cc`. `None` where
    /// the object is gone or its count is full.
    pub fn clone_ref<T>(&self, cc: &ThreadedCc<T>) -> (copy: Option<ThreadedCc<T>>)
        ensures
            copy matches Some(c) ==> c.target() == cc.target(),
    {
        let mut guard = lock_list(&self.list);
        let done = locked(&mut guard).clone_ref(cc.id());
        if done {
            Some(ThreadedCc::new(cc.id()))
        } else {
            None
        }
    }

    /// The number of strong references to the object of `cc`, zero if the
    /// object is gone. Meant for diagnostics: another thread may change the
    /// count at once.
    pub fn ref_count<T>(&self, cc: &ThreadedCc<T>) -> usize {
        let mut guard = lock_list(&self.list);
        locked(&mut guard).ref_count(cc.id())
    }

    /// Gives up the strong reference `cc`. The last reference to an object
    /// unlinks it and drops its value. The value is dropped while the
    /// collector-exclusion lock is held in shared mode and after the
    /// structural lock is released, so that it may give up references itself.
    pub fn drop_ref<T>(&self, cc: ThreadedCc<T>) {
        let access = lock_shared(&self.collector_lock);
        let _value = self.release(&access, cc.id());
    }

    /// Gives up one strong reference to the object `id` under the structural
    /// lock, and hands out the value of an object that this frees. The caller
    /// holds the collector-exclusion lock in shared mode, and shows it by
    /// `_access`.
    fn release(&self, _access: &AccessGuard<'_>, id: usize) -> Option<Box<dyn CcDyn>> {
        let mut guard = lock_list(&self.list);
        locked(&mut guard).release(id)
    }

    /// Collects the cyclic garbage of this space and returns the number of
    /// objects collected: the tracked objects that no references lead to
    /// from outside the tracked objects.
    ///
    /// The pass waits until no access to a value is in flight. It holds the
    /// collector-exclusion lock in exclusive mode and then the structural
    /// lock while it scans the objects and takes the values of the
    /// unreachable ones. It drops those values after it released both locks,
    /// so that their destructors may give up references, and unlinks the
    /// objects last.
    ///
    /// A thread that holds an `AccessGuard` of this space, or is in the
    /// middle of a pass on it, must not call this: it would wait for itself.
    pub fn collect_cycles(&self) -> usize {
        let collecting = lock_exclusive(&self.collector_lock);
        let (ids, values) = self.take_unreachable(collecting);
        self.reclaim(ids, values)
    }

    /// As `collect_cycles`, but gives up at once, with `None`, where an
    /// access to a value or another pass is in flight.
    pub fn try_collect_cycles(&self) -> Option<usize> {
        match try_lock_exclusive(&self.collector_lock) {
            Some(collecting) => {
                let (ids, values) = self.take_unreachable(collecting);
                Some(self.reclaim(ids, values))
            },
            None => None,
        }
    }

    /// The scan of a collection pass, under both locks: finds the
    /// unreachable objects, holds them and takes their values. The caller
    /// hands over the collector-exclusion lock, held in exclusive mode. Both
    /// locks are released on return, the structural lock first.
    fn take_unreachable(&self, _collecting: CollectGuard<'_>) -> (taken: (Vec<usize>, Vec<Box<dyn CcDyn>>))
        ensures
            taken.0@.no_duplicates(),
    {
        let mut guard = lock_list(&self.list);
        locked(&mut guard).take_unreachable()
    }

    /// The end of a collection pass, with no lock held at first: drops the
    /// values, then unlinks the objects in `ids` under the structural lock.
    /// Returns the number of objects in `ids`.
    fn reclaim(&self, ids: Vec<usize>, values: Vec<Box<dyn CcDyn>>) -> (count: usize)
        ensures
            count == ids.len(),
    {
        discard(values);
        let mut guard = lock_list(&self.list);
        let _freed = locked(&mut guard).end_collect(&ids);
        ids.len()
    }

    /// Holds the collector-exclusion lock in shared mode until the guard is
    /// dropped. Code that reads or changes what a stored value refers to does
    /// so under this guard: no collection runs meanwhile.
    pub fn access(&self) -> AccessGuard<'_> {
        lock_shared(&self.collector_lock)
    }
}

} // verus!
