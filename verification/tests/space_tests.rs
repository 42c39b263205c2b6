use gcmodule::{ThreadedCc, ThreadedObjectSpace, Trace, Tracer};
use std::sync::{Arc, Mutex};

/// A tracked value whose references can be changed after it was stored.
struct Node {
    out: Arc<Mutex<Vec<usize>>>,
}

impl Trace for Node {
    fn trace(&self, tracer: &mut Tracer) {
        for id in self.out.lock().unwrap().iter() {
            tracer.visit(*id);
        }
    }

    fn is_type_tracked() -> bool {
        true
    }
}

fn node(space: &ThreadedObjectSpace) -> (ThreadedCc<Node>, Arc<Mutex<Vec<usize>>>) {
    let out = Arc::new(Mutex::new(Vec::new()));
    (space.create(Node { out: out.clone() }), out)
}

#[test]
fn create_links_tracked_objects_only() {
    let space = ThreadedObjectSpace::new();
    assert_eq!(space.count_tracked(), 0);
    let (a, _) = node(&space);
    assert_eq!(space.count_tracked(), 1);
    let n = space.create(5u32);
    assert_eq!(space.count_tracked(), 1);
    let (b, _) = node(&space);
    assert_eq!(space.count_tracked(), 2);
    space.drop_ref(n);
    assert_eq!(space.count_tracked(), 2);
    space.drop_ref(a);
    assert_eq!(space.count_tracked(), 1);
    space.drop_ref(b);
    assert_eq!(space.count_tracked(), 0);
}

#[test]
fn clone_ref_keeps_object_alive() {
    let space = ThreadedObjectSpace::new();
    let (a, _) = node(&space);
    let a2 = space.clone_ref(&a).unwrap();
    assert_eq!(a2.id(), a.id());
    space.drop_ref(a);
    assert_eq!(space.count_tracked(), 1);
    space.drop_ref(a2);
    assert_eq!(space.count_tracked(), 0);
}

#[test]
fn many_creations_lose_nothing() {
    let space = ThreadedObjectSpace::new();
    let mut all = Vec::new();
    for _ in 0..800 {
        all.push(node(&space).0);
    }
    assert_eq!(space.count_tracked(), 800);
    let mut ids: Vec<usize> = all.iter().map(|cc| cc.id()).collect();
    ids.sort();
    ids.dedup();
    assert_eq!(ids.len(), 800);
    for cc in all {
        space.drop_ref(cc);
    }
    assert_eq!(space.count_tracked(), 0);
}

#[test]
fn two_object_cycle_is_collected() {
    let space = ThreadedObjectSpace::new();
    let (a, a_out) = node(&space);
    let (b, b_out) = node(&space);
    let a_in_b = space.clone_ref(&a).unwrap();
    let b_in_a = space.clone_ref(&b).unwrap();
    a_out.lock().unwrap().push(b_in_a.id());
    b_out.lock().unwrap().push(a_in_b.id());
    assert_eq!(space.collect_cycles(), 0);
    space.drop_ref(a);
    space.drop_ref(b);
    assert_eq!(space.count_tracked(), 2);
    assert_eq!(space.count_tracked(), 2);
    assert_eq!(space.collect_cycles(), 2);
    assert_eq!(space.count_tracked(), 0);
    assert_eq!(space.collect_cycles(), 0);
}

#[test]
fn collecting_nothing_is_idempotent() {
    let space = ThreadedObjectSpace::new();
    assert_eq!(space.collect_cycles(), 0);
    assert_eq!(space.collect_cycles(), 0);
    let (a, _) = node(&space);
    let (b, _) = node(&space);
    for _ in 0..3 {
        assert_eq!(space.collect_cycles(), 0);
        assert_eq!(space.count_tracked(), 2);
    }
    space.drop_ref(a);
    space.drop_ref(b);
    assert_eq!(space.count_tracked(), 0);
    assert_eq!(space.collect_cycles(), 0);
}

#[test]
fn rooted_cycle_is_never_collected() {
    let space = ThreadedObjectSpace::new();
    let (a, a_out) = node(&space);
    let (b, b_out) = node(&space);
    let (c, c_out) = node(&space);
    // a -> b -> c -> a, and one handle to a from outside.
    a_out.lock().unwrap().push(b.id());
    b_out.lock().unwrap().push(c.id());
    c_out.lock().unwrap().push(space.clone_ref(&a).unwrap().id());
    for _ in 0..4 {
        assert_eq!(space.collect_cycles(), 0);
        assert_eq!(space.count_tracked(), 3);
    }
    space.drop_ref(a);
    assert_eq!(space.count_tracked(), 3);
    assert_eq!(space.collect_cycles(), 3);
    assert_eq!(space.count_tracked(), 0);
}

/// A handle that gives its reference up when it is dropped.
struct Owned {
    space: Arc<ThreadedObjectSpace>,
    cc: Option<ThreadedCc<Cell>>,
}

impl Owned {
    fn new(space: &Arc<ThreadedObjectSpace>, cc: ThreadedCc<Cell>) -> Owned {
        Owned { space: space.clone(), cc: Some(cc) }
    }

    fn again(&self) -> Owned {
        let copy = self.space.clone_ref(self.cc.as_ref().unwrap()).unwrap();
        Owned::new(&self.space, copy)
    }
}

impl Drop for Owned {
    fn drop(&mut self) {
        if let Some(cc) = self.cc.take() {
            self.space.drop_ref(cc);
        }
    }
}

impl Trace for Owned {
    fn trace(&self, tracer: &mut Tracer) {
        self.cc.trace(tracer);
    }

    fn is_type_tracked() -> bool {
        true
    }
}

/// A tracked value that owns handles. The test keeps a second way to the
/// list, to change it after the value was stored.
struct Cell {
    out: Arc<Mutex<Vec<Owned>>>,
}

impl Trace for Cell {
    fn trace(&self, tracer: &mut Tracer) {
        for owned in self.out.lock().unwrap().iter() {
            owned.trace(tracer);
        }
    }

    fn is_type_tracked() -> bool {
        true
    }
}

fn cell(space: &Arc<ThreadedObjectSpace>, out: Vec<Owned>) -> (Owned, Arc<Mutex<Vec<Owned>>>) {
    let out = Arc::new(Mutex::new(out));
    (Owned::new(space, space.create(Cell { out: out.clone() })), out)
}

#[test]
fn acyclic_objects_need_no_collection() {
    let space = Arc::new(ThreadedObjectSpace::new());
    let leaf = cell(&space, Vec::new()).0;
    let middle = cell(&space, vec![leaf]).0;
    let other = cell(&space, Vec::new()).0;
    let top = cell(&space, vec![middle.again(), middle, other.again()]).0;
    assert_eq!(space.count_tracked(), 4);
    assert_eq!(space.ref_count(other.cc.as_ref().unwrap()), 2);
    // Dropping the last handle to the top frees everything that only the
    // top kept alive, without any collection.
    drop(top);
    assert_eq!(space.count_tracked(), 1);
    assert_eq!(space.ref_count(other.cc.as_ref().unwrap()), 1);
    drop(other);
    assert_eq!(space.count_tracked(), 0);
}

#[test]
fn collected_values_give_up_what_they_own() {
    let space = Arc::new(ThreadedObjectSpace::new());
    let kept = cell(&space, Vec::new()).0;
    let plain = Owned { space: space.clone(), cc: None };
    let number = space.create(7u8);
    let (a, a_out) = cell(&space, Vec::new());
    let (b, b_out) = cell(&space, Vec::new());
    a_out.lock().unwrap().push(b.again());
    b_out.lock().unwrap().push(a.again());
    a_out.lock().unwrap().push(kept.again());
    drop(a_out);
    drop(b_out);
    assert_eq!(space.ref_count(kept.cc.as_ref().unwrap()), 2);
    assert_eq!(space.ref_count(a.cc.as_ref().unwrap()), 2);
    assert_eq!(space.collect_cycles(), 0);
    drop(a);
    drop(b);
    assert_eq!(space.count_tracked(), 3);
    assert_eq!(space.collect_cycles(), 2);
    assert_eq!(space.count_tracked(), 1);
    // The cycle's reference to the object that is kept is gone with it.
    assert_eq!(space.ref_count(kept.cc.as_ref().unwrap()), 1);
    assert_eq!(space.ref_count(&number), 1);
    assert_eq!(space.collect_cycles(), 0);
    space.drop_ref(number);
    drop(plain);
    drop(kept);
    assert_eq!(space.count_tracked(), 0);
}

#[test]
fn stale_handles_do_nothing() {
    let space = ThreadedObjectSpace::new();
    let (a, _) = node(&space);
    let copy = space.clone_ref(&a).unwrap();
    space.drop_ref(a);
    space.drop_ref(copy);
    assert_eq!(space.count_tracked(), 0);
    let (b, _) = node(&space);
    assert_eq!(space.ref_count(&b), 1);
    assert_eq!(space.count_tracked(), 1);
    space.drop_ref(b);
    let other = ThreadedObjectSpace::default();
    assert_eq!(other.count_tracked(), 0);
    let (c, _) = node(&other);
    // The first space has no such object any more.
    assert_eq!(space.ref_count(&c), 0);
    assert!(space.clone_ref(&c).is_none());
    other.drop_ref(c);
}

#[test]
fn access_guard_allows_nested_access() {
    let space = ThreadedObjectSpace::new();
    let (a, _) = node(&space);
    {
        let _outer = space.access();
        let _inner = space.access();
        // Giving up a reference takes shared access as well.
        space.drop_ref(a);
    }
    assert_eq!(space.count_tracked(), 0);
    assert_eq!(space.collect_cycles(), 0);
}

#[test]
fn collection_excludes_access() {
    let space = ThreadedObjectSpace::new();
    let (a, a_out) = node(&space);
    a_out.lock().unwrap().push(space.clone_ref(&a).unwrap().id());
    space.drop_ref(a);
    {
        let _access = space.access();
        // A pass does not start while a value is being accessed.
        assert_eq!(space.try_collect_cycles(), None);
        let _second = space.access();
        assert_eq!(space.try_collect_cycles(), None);
        assert_eq!(space.count_tracked(), 1);
    }
    assert_eq!(space.try_collect_cycles(), Some(1));
    assert_eq!(space.count_tracked(), 0);
    assert_eq!(space.try_collect_cycles(), Some(0));
    // The pass has released the lock: access is free again.
    let _access = space.access();
}

fn shareable<T: Send + Sync>() {}

#[test]
fn space_can_be_shared_between_threads() {
    shareable::<ThreadedObjectSpace>();
    shareable::<Arc<ThreadedObjectSpace>>();
    shareable::<ThreadedCc<Node>>();
}
