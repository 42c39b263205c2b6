use gcmodule::graph::find_unreachable;
use gcmodule::sync::RegistryCell;
use gcmodule::{CcBox, CcDyn, Header, Link, Registry, ThreadedRefCount, Trace, Tracer};
use std::sync::{Arc, Mutex};

/// A tracked value that reports the slots in a list shared with the test.
struct Refs(Arc<Mutex<Vec<usize>>>);

impl Trace for Refs {
    fn trace(&self, tracer: &mut Tracer) {
        for id in self.0.lock().unwrap().iter() {
            tracer.visit(*id);
        }
    }

    fn is_type_tracked() -> bool {
        true
    }
}

fn refs(ids: &[usize]) -> Box<dyn CcDyn> {
    Box::new(CcBox::new(Refs(Arc::new(Mutex::new(ids.to_vec())))))
}

fn shared(list: &Arc<Mutex<Vec<usize>>>) -> Box<dyn CcDyn> {
    Box::new(CcBox::new(Refs(list.clone())))
}

fn is_null(link: Link) -> bool {
    matches!(link, Link::Null)
}

#[test]
fn header_starts_unlinked() {
    let mut header = Header::new();
    assert!(is_null(header.next()));
    assert!(is_null(header.prev()));
    header.set_prev(Link::Object(4));
    assert!(matches!(header.prev(), Link::Object(4)));
    assert!(is_null(header.next()));
    header.set_next(Link::Head);
    assert!(matches!(header.next(), Link::Head));
    assert!(matches!(header.prev(), Link::Object(4)));
    let registry = Registry::new();
    assert!(is_null(registry.empty_header().next()));
    assert!(is_null(registry.empty_header().prev()));
}

#[test]
fn ref_count_cell_counts() {
    let mut cell = ThreadedRefCount::new(true);
    assert_eq!(cell.ref_count(), 1);
    assert!(cell.is_tracked());
    assert!(cell.can_inc());
    assert_eq!(cell.inc_ref(), 1);
    assert_eq!(cell.inc_ref(), 2);
    assert_eq!(cell.ref_count(), 3);
    assert_eq!(cell.dec_ref(), 3);
    assert_eq!(cell.dec_ref(), 2);
    assert_eq!(cell.dec_ref(), 1);
    assert_eq!(cell.ref_count(), 0);
    assert!(cell.is_tracked());
    let plain = ThreadedRefCount::new(false);
    assert!(!plain.is_tracked());
    assert_eq!(plain.ref_count(), 1);
    let vacant = ThreadedRefCount::vacant();
    assert_eq!(vacant.ref_count(), 0);
    assert!(!vacant.is_tracked());
    let registry = Registry::new();
    assert!(registry.new_ref_count(true).is_tracked());
    assert!(!registry.new_ref_count(false).is_tracked());
    assert_eq!(registry.new_ref_count(false).ref_count(), 1);
}

#[test]
fn create_fills_slots_and_links_tracked_objects() {
    let mut registry = Registry::new();
    assert_eq!(registry.count_tracked(), 0);
    assert_eq!(registry.capacity(), 0);
    let a = registry.create(refs(&[]), true);
    let b = registry.create(refs(&[]), false);
    let c = registry.create(refs(&[]), true);
    assert_eq!((a, b, c), (0, 1, 2));
    assert_eq!(registry.capacity(), 3);
    assert_eq!(registry.count_tracked(), 2);
    assert!(registry.is_linked(a));
    assert!(!registry.is_linked(b));
    assert!(registry.is_linked(c));
    assert_eq!(registry.ref_count(a), 1);
    assert_eq!(registry.ref_count(b), 1);
    assert_eq!(registry.ref_count(7), 0);
}

#[test]
fn release_frees_on_last_reference_only() {
    let mut registry = Registry::new();
    let a = registry.create(refs(&[]), true);
    assert!(registry.clone_ref(a));
    assert_eq!(registry.ref_count(a), 2);
    assert!(registry.release(a).is_none());
    assert_eq!(registry.ref_count(a), 1);
    assert_eq!(registry.count_tracked(), 1);
    assert!(registry.release(a).is_some());
    assert_eq!(registry.ref_count(a), 0);
    assert_eq!(registry.count_tracked(), 0);
    assert!(!registry.is_linked(a));
    // Nothing is left to give up or to copy.
    assert!(registry.release(a).is_none());
    assert!(!registry.clone_ref(a));
    assert!(registry.release(99).is_none());
    assert!(!registry.clone_ref(99));
    assert_eq!(registry.count_tracked(), 0);
}

#[test]
fn slots_are_reused() {
    let mut registry = Registry::new();
    let a = registry.create(refs(&[]), true);
    let b = registry.create(refs(&[]), true);
    assert!(registry.release(a).is_some());
    let c = registry.create(refs(&[]), false);
    assert_eq!(c, a);
    assert_eq!(registry.capacity(), 2);
    assert!(!registry.is_linked(c));
    assert!(registry.is_linked(b));
    assert_eq!(registry.count_tracked(), 1);
    assert!(registry.release(c).is_some());
    let d = registry.create(refs(&[]), true);
    assert_eq!(d, a);
    assert_eq!(registry.count_tracked(), 2);
}

#[test]
fn remove_splices_at_both_ends_and_in_the_middle() {
    for gone in 0..3usize {
        let mut registry = Registry::new();
        for _ in 0..3 {
            registry.create(refs(&[]), true);
        }
        registry.remove(gone);
        assert_eq!(registry.count_tracked(), 2);
        for id in 0..3usize {
            assert_eq!(registry.is_linked(id), id != gone);
        }
        registry.insert(gone);
        assert_eq!(registry.count_tracked(), 3);
        assert!(registry.is_linked(gone));
    }
}

#[test]
fn scan_reports_counts_and_references() {
    let mut registry = Registry::new();
    let a = registry.create(refs(&[1, 1, 5]), true);
    let b = registry.create(refs(&[0]), true);
    let c = registry.create(refs(&[0]), false);
    assert!(registry.clone_ref(b));
    let g = registry.scan();
    assert_eq!(g.len(), 3);
    assert!(g[a].linked && g[b].linked && !g[c].linked);
    assert_eq!((g[a].count, g[b].count, g[c].count), (1, 2, 1));
    assert_eq!(g[a].edges, vec![1, 1, 5]);
    assert_eq!(g[b].edges, vec![0]);
    // A value that is not tracked is not traced.
    assert!(g[c].edges.is_empty());
}

#[test]
fn collection_holds_then_gives_up() {
    let mut registry = Registry::new();
    let a_refs = Arc::new(Mutex::new(Vec::new()));
    let b_refs = Arc::new(Mutex::new(Vec::new()));
    let a = registry.create(shared(&a_refs), true);
    let b = registry.create(shared(&b_refs), true);
    let root = registry.create(refs(&[]), true);
    a_refs.lock().unwrap().push(b);
    b_refs.lock().unwrap().push(a);
    let garbage = find_unreachable(&registry.scan());
    assert_eq!(garbage, vec![true, true, false]);
    let (ids, values) = registry.begin_collect(&garbage);
    assert_eq!(ids, vec![a, b]);
    assert_eq!(values.len(), 2);
    // Held objects stay linked, keep their counts and are not freed by a
    // release.
    assert_eq!(registry.count_tracked(), 3);
    assert_eq!(registry.ref_count(a), 1);
    assert!(registry.release(a).is_none());
    assert_eq!(registry.ref_count(a), 0);
    assert!(registry.is_linked(a));
    // A second pass does not take what the first one holds.
    let again = registry.begin_collect(&garbage);
    assert!(again.0.is_empty() && again.1.is_empty());
    drop(values);
    assert_eq!(registry.end_collect(&ids), 2);
    assert_eq!(registry.count_tracked(), 1);
    assert!(!registry.is_linked(a) && !registry.is_linked(b) && registry.is_linked(root));
    assert_eq!(registry.ref_count(b), 0);
    assert_eq!(registry.ref_count(root), 1);
    // Giving up twice gives up nothing.
    assert_eq!(registry.end_collect(&ids), 0);
    assert_eq!(registry.end_collect(&vec![root, 42]), 0);
    assert_eq!(registry.count_tracked(), 1);
    // The slots are free again.
    let c = registry.create(refs(&[]), true);
    assert!(c == a || c == b);
}

#[test]
fn collection_ignores_flags_for_other_slots() {
    let mut registry = Registry::new();
    let a = registry.create(refs(&[]), true);
    let b = registry.create(refs(&[]), false);
    // Flags for an untracked object, and for slots that do not exist.
    let (ids, values) = registry.begin_collect(&vec![false, true, true, true]);
    assert!(ids.is_empty() && values.is_empty());
    // Too few flags: the rest counts as unflagged.
    let (ids, values) = registry.begin_collect(&vec![]);
    assert!(ids.is_empty() && values.is_empty());
    assert_eq!(registry.count_tracked(), 1);
    assert_eq!(registry.ref_count(a), 1);
    assert_eq!(registry.ref_count(b), 1);
}

#[test]
fn cell_operations_need_no_preparation() {
    let mut cell = RegistryCell::new();
    assert_eq!(cell.count_tracked(), 0);
    assert_eq!(cell.ref_count(0), 0);
    let a_refs = Arc::new(Mutex::new(Vec::new()));
    let a = cell.create(shared(&a_refs), true);
    let b = cell.create(refs(&[a]), true);
    let plain = cell.create(refs(&[]), false);
    a_refs.lock().unwrap().push(b);
    assert_eq!((a, b, plain), (0, 1, 2));
    assert_eq!(cell.count_tracked(), 2);
    assert!(cell.clone_ref(a));
    assert!(!cell.clone_ref(9));
    assert_eq!(cell.ref_count(a), 2);
    // The cycle has a reference from outside: nothing is unreachable.
    let (ids, values) = cell.take_unreachable();
    assert!(ids.is_empty() && values.is_empty());
    assert!(cell.release(a).is_none());
    assert_eq!(cell.ref_count(a), 1);
    // Now both counts come from the cycle alone.
    let (ids, values) = cell.take_unreachable();
    assert_eq!(ids, vec![a, b]);
    assert_eq!(values.len(), 2);
    assert_eq!(cell.count_tracked(), 2);
    drop(values);
    assert_eq!(cell.end_collect(&ids), 2);
    assert_eq!(cell.count_tracked(), 0);
    assert_eq!(cell.ref_count(plain), 1);
    assert!(cell.release(plain).is_some());
    assert!(cell.release(plain).is_none());
    assert_eq!(cell.ref_count(plain), 0);
}
