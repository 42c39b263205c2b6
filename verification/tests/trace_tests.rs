use gcmodule::trace_cells::trace_found;
use gcmodule::trace_impls::trace_entries;
use gcmodule::{ThreadedCc, ThreadedObjectSpace, Trace, Tracer};
use std::borrow::Cow;
use std::cell::{Cell, OnceCell, RefCell};
use std::collections::{BTreeMap, HashMap, VecDeque};
use std::marker::PhantomData;
use std::path::PathBuf;
use std::rc::Rc;
use std::sync::{Arc, Mutex, RwLock};

/// A tracked leaf that reports the number it holds.
#[derive(PartialEq, Eq, PartialOrd, Ord)]
struct Leaf(usize);

impl Trace for Leaf {
    fn trace(&self, tracer: &mut Tracer) {
        tracer.visit(self.0);
    }

    fn is_type_tracked() -> bool {
        true
    }
}

fn ids_of<T: Trace>(value: &T) -> Vec<usize> {
    let mut tracer = Tracer::new();
    value.trace(&mut tracer);
    tracer.into_ids()
}

#[test]
fn tracer_records_in_order() {
    let mut tracer = Tracer::new();
    assert_eq!(tracer.len(), 0);
    tracer.visit(3);
    Leaf(7).trace(&mut tracer);
    tracer.visit(3);
    assert_eq!(tracer.len(), 3);
    assert_eq!(tracer.into_ids(), vec![3, 7, 3]);
}

#[test]
fn test_is_type_tracked() {
    assert!(!u8::is_type_tracked());
    assert!(!<i32 as Trace>::is_type_tracked());
    assert!(!String::is_type_tracked());
    assert!(!Option::<u32>::is_type_tracked());
    assert!(!Vec::<u8>::is_type_tracked());
    assert!(!<(bool, i64)>::is_type_tracked());
    assert!(!Cell::<u32>::is_type_tracked());
    assert!(!RefCell::<String>::is_type_tracked());
    assert!(Box::<dyn Trace>::is_type_tracked());
    assert!(RefCell::<Box::<dyn Trace>>::is_type_tracked());
    assert!(RefCell::<Vec::<Box::<dyn Trace>>>::is_type_tracked());
    assert!(Vec::<RefCell::<Box::<dyn Trace>>>::is_type_tracked());
    assert!(!ThreadedCc::<u8>::is_type_tracked());
    assert!(!Vec::<ThreadedCc::<u8>>::is_type_tracked());

    assert!(!PhantomData::<u8>::is_type_tracked());
    assert!(!PathBuf::is_type_tracked());
}

#[test]
fn test_is_cyclic_type_tracked() {
    type C1 = RefCell<Option<Rc<Box<S1>>>>;
    struct S1(C1);
    impl Trace for S1 {
        fn trace(&self, t: &mut Tracer) {
            self.0.trace(t);
        }
        fn is_type_tracked() -> bool {
            // This is not an infinite loop because Rc is not tracked.
            C1::is_type_tracked()
        }
    }

    type C2 = RefCell<Option<ThreadedCc<Box<S2>>>>;
    struct S2(C2);
    impl Trace for S2 {
        fn trace(&self, t: &mut Tracer) {
            self.0.trace(t);
        }
        fn is_type_tracked() -> bool {
            // C2::is_type_tracked() can cause an infinite loop.
            true
        }
    }

    assert!(!S1::is_type_tracked());
    assert!(S2::is_type_tracked());
}

#[test]
fn leaf_types_are_untracked_and_report_nothing() {
    assert!(!bool::is_type_tracked());
    assert!(!char::is_type_tracked());
    assert!(!i8::is_type_tracked());
    assert!(!i16::is_type_tracked());
    assert!(!isize::is_type_tracked());
    assert!(!u16::is_type_tracked());
    assert!(!u64::is_type_tracked());
    assert!(!usize::is_type_tracked());
    assert!(!<()>::is_type_tracked());
    assert!(!<&'static str>::is_type_tracked());
    assert!(!Rc::<Leaf>::is_type_tracked());
    assert!(!Arc::<Leaf>::is_type_tracked());
    assert!(ids_of(&5u32).is_empty());
    assert!(ids_of(&String::from("abc")).is_empty());
    assert!(ids_of(&Rc::new(Leaf(1))).is_empty());
    assert!(ids_of(&Arc::new(Leaf(1))).is_empty());
    assert!(ids_of(&PathBuf::from("/tmp")).is_empty());
}

#[test]
fn composition_of_is_type_tracked() {
    // A pair of leaves is a leaf; one tracked part makes the whole tracked.
    assert!(!<(u8, String)>::is_type_tracked());
    assert!(<(u8, Leaf)>::is_type_tracked());
    assert!(<(Leaf, u8)>::is_type_tracked());
    assert!(!<(u8,)>::is_type_tracked());
    assert!(<(u8, u8, Leaf)>::is_type_tracked());
    assert!(!<(u8, u8, u8, u8)>::is_type_tracked());
    assert!(<(u8, u8, u8, u8, Leaf)>::is_type_tracked());
    assert!(<(u8, Leaf, u8, u8, u8, u8)>::is_type_tracked());
    assert!(!<(u8, u8, u8, u8, u8, u8, u8)>::is_type_tracked());
    assert!(<(u8, u8, u8, u8, u8, u8, Leaf)>::is_type_tracked());
    // Containers follow their items.
    assert!(Vec::<Box<dyn Trace>>::is_type_tracked());
    assert!(Option::<Leaf>::is_type_tracked());
    assert!(!Result::<u8, String>::is_type_tracked());
    assert!(Result::<u8, Leaf>::is_type_tracked());
    assert!(Result::<Leaf, u8>::is_type_tracked());
    assert!(Box::<Leaf>::is_type_tracked());
    assert!(!Box::<u8>::is_type_tracked());
    assert!(VecDeque::<Leaf>::is_type_tracked());
    assert!(!VecDeque::<u8>::is_type_tracked());
    assert!(!BTreeMap::<u8, String>::is_type_tracked());
    assert!(BTreeMap::<u8, Leaf>::is_type_tracked());
    assert!(!HashMap::<u8, String>::is_type_tracked());
    assert!(HashMap::<u8, Leaf>::is_type_tracked());
    assert!(!Cow::<'static, str>::is_type_tracked());
    assert!(OnceCell::<Leaf>::is_type_tracked());
    assert!(!OnceCell::<u8>::is_type_tracked());
    assert!(Mutex::<Leaf>::is_type_tracked());
    assert!(!Mutex::<u8>::is_type_tracked());
    assert!(RwLock::<Leaf>::is_type_tracked());
    assert!(!RwLock::<u8>::is_type_tracked());
    assert!(ThreadedCc::<Leaf>::is_type_tracked());
}

#[test]
fn containers_report_their_items_in_order() {
    assert_eq!(ids_of(&vec![Leaf(4), Leaf(2), Leaf(4)]), vec![4, 2, 4]);
    assert_eq!(ids_of(&Vec::<Leaf>::new()), Vec::<usize>::new());
    assert_eq!(ids_of(&VecDeque::from(vec![Leaf(9), Leaf(8)])), vec![9, 8]);
    assert_eq!(ids_of(&Some(Leaf(5))), vec![5]);
    assert_eq!(ids_of(&None::<Leaf>), Vec::<usize>::new());
    assert_eq!(ids_of(&Ok::<Leaf, Leaf>(Leaf(1))), vec![1]);
    assert_eq!(ids_of(&Err::<Leaf, Leaf>(Leaf(2))), vec![2]);
    assert_eq!(ids_of(&Box::new(Leaf(6))), vec![6]);
    let boxed: Box<dyn Trace> = Box::new(Leaf(7));
    assert_eq!(ids_of(&boxed), vec![7]);
    assert_eq!(ids_of(&(Leaf(1),)), vec![1]);
    assert_eq!(ids_of(&(Leaf(1), Leaf(2))), vec![1, 2]);
    assert_eq!(ids_of(&(Leaf(1), 0u8, Leaf(3))), vec![1, 3]);
    assert_eq!(ids_of(&(Leaf(1), Leaf(2), Leaf(3), Leaf(4))), vec![1, 2, 3, 4]);
    assert_eq!(ids_of(&(Leaf(1), Leaf(2), Leaf(3), Leaf(4), Leaf(5))), vec![1, 2, 3, 4, 5]);
    assert_eq!(ids_of(&(Leaf(1), Leaf(2), Leaf(3), Leaf(4), Leaf(5), Leaf(6))), vec![1, 2, 3, 4, 5, 6]);
    assert_eq!(
        ids_of(&(Leaf(1), Leaf(2), Leaf(3), Leaf(4), Leaf(5), Leaf(6), Leaf(7))),
        vec![1, 2, 3, 4, 5, 6, 7]
    );
    assert_eq!(ids_of(&vec![Some((Leaf(1), vec![Leaf(2)])), None, Some((Leaf(3), vec![]))]), vec![1, 2, 3]);
}

#[test]
fn maps_report_keys_and_values() {
    let mut tree = BTreeMap::new();
    tree.insert(2u8, Leaf(20));
    tree.insert(1u8, Leaf(10));
    assert_eq!(ids_of(&tree), vec![10, 20]);
    let mut hash = HashMap::new();
    hash.insert(1u8, Leaf(10));
    hash.insert(2u8, Leaf(20));
    let mut seen = ids_of(&hash);
    seen.sort();
    assert_eq!(seen, vec![10, 20]);
}

#[test]
fn cow_reports_what_it_owns() {
    let owned: Cow<'static, str> = Cow::Owned(String::from("x"));
    assert!(ids_of(&owned).is_empty());
    let borrowed: Cow<'static, str> = Cow::Borrowed("x");
    assert!(ids_of(&borrowed).is_empty());
}

#[test]
fn cells_report_what_they_hold_now() {
    let cell = RefCell::new(vec![Leaf(1)]);
    assert_eq!(ids_of(&cell), vec![1]);
    cell.borrow_mut().push(Leaf(2));
    assert_eq!(ids_of(&cell), vec![1, 2]);
    {
        let _writer = cell.borrow_mut();
        assert!(ids_of(&cell).is_empty());
    }
    {
        let _reader = cell.borrow();
        assert_eq!(ids_of(&cell), vec![1, 2]);
    }
    assert!(ids_of(&Cell::new(3u8)).is_empty());
    let once = OnceCell::new();
    assert!(ids_of(&once).is_empty());
    assert!(once.set(Leaf(4)).is_ok());
    assert_eq!(ids_of(&once), vec![4]);
}

#[test]
fn locks_report_what_they_guard_unless_held() {
    let mutex = Mutex::new(Leaf(1));
    assert_eq!(ids_of(&mutex), vec![1]);
    {
        let _held = mutex.lock().unwrap();
        assert!(ids_of(&mutex).is_empty());
    }
    assert_eq!(ids_of(&mutex), vec![1]);
    let lock = RwLock::new(Leaf(2));
    assert_eq!(ids_of(&lock), vec![2]);
    {
        let _reader = lock.read().unwrap();
        assert!(ids_of(&lock).is_empty());
    }
    {
        let _writer = lock.write().unwrap();
        assert!(ids_of(&lock).is_empty());
    }
    assert_eq!(ids_of(&lock), vec![2]);
}

#[test]
fn handle_reports_its_object() {
    let space = ThreadedObjectSpace::new();
    let first = space.create(Leaf(0));
    let second = space.create(Leaf(0));
    assert_ne!(first.id(), second.id());
    assert_eq!(ids_of(&first), vec![first.id()]);
    let (a, b) = (first.id(), second.id());
    assert_eq!(ids_of(&vec![second, first]), vec![b, a]);
    let plain = space.create(5u8);
    assert_eq!(ids_of(&plain), vec![plain.id()]);
}

#[test]
fn trace_found_traces_what_was_handed_out() {
    let mut tracer = Tracer::new();
    tracer.visit(1);
    trace_found(None::<&Leaf>, &mut tracer);
    assert_eq!(tracer.len(), 1);
    trace_found(Some(&vec![Leaf(2), Leaf(3)]), &mut tracer);
    assert_eq!(tracer.into_ids(), vec![1, 2, 3]);
}

#[test]
fn trace_entries_follows_the_entries() {
    let keys = [Leaf(1), Leaf(3)];
    let values = [Leaf(2), Leaf(4)];
    let entries = vec![(&keys[1], &values[1]), (&keys[0], &values[0])];
    let mut tracer = Tracer::new();
    trace_entries(&entries, &mut tracer);
    assert_eq!(tracer.into_ids(), vec![3, 4, 1, 2]);
    let none: Vec<(&Leaf, &Leaf)> = Vec::new();
    let mut tracer = Tracer::new();
    trace_entries(&none, &mut tracer);
    assert_eq!(tracer.len(), 0);
}

#[test]
fn maps_report_every_entry_once() {
    let mut tree = BTreeMap::new();
    for key in [5usize, 1, 4, 2, 3] {
        tree.insert(Leaf(key), Leaf(key + 10));
    }
    assert_eq!(ids_of(&tree), vec![1, 11, 2, 12, 3, 13, 4, 14, 5, 15]);
    let mut hash = HashMap::new();
    for key in 0..20u8 {
        hash.insert(key, Leaf(key as usize));
    }
    let mut seen = ids_of(&hash);
    seen.sort();
    assert_eq!(seen, (0..20usize).collect::<Vec<usize>>());
    assert!(ids_of(&BTreeMap::<u8, Leaf>::new()).is_empty());
    assert!(ids_of(&HashMap::<u8, Leaf>::new()).is_empty());
}
