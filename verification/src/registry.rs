use vstd::prelude::*;
use crate::cc::CcDyn;
use crate::graph::Node;
use crate::ref_count::ThreadedRefCount;
use crate::trace::Tracer;
use crate::view::{reported, ObjectView, RegistryView};

verus! {

/// A link of the registry's list: to nothing, to the sentinel, or to the
/// object in a slot.
#[derive(Clone, Copy)]
pub enum Link {
    Null,
    Head,
    Object(usize),
}

/// The list node of one object. A linked header has both links set; an
/// unlinked one has both cleared.
pub struct Header {
    next: Link,
    prev: Link,
}

impl Header {
    /// The link to the following node, as a value of the specification.
    pub closed spec fn next_link(&self) -> Link {
        self.next
    }

    /// The link to the preceding node, as a value of the specification.
    pub closed spec fn prev_link(&self) -> Link {
        self.prev
    }

    /// Whether the header is part of no list.
    pub open spec fn is_unlinked(&self) -> bool {
        self.next_link() == Link::Null && self.prev_link() == Link::Null
    }

    /// An unlinked header.
    pub fn new() -> (header: Header)
        ensures
            header.is_unlinked(),
    {
        Header { next: Link::Null, prev: Link::Null }
    }

    /// The link to the following node.
    pub fn next(&self) -> (link: Link)
        ensures
            link == self.next_link(),
    {
        self.next
    }

    /// The link to the preceding node.
    pub fn prev(&self) -> (link: Link)
        ensures
            link == self.prev_link(),
    {
        self.prev
    }

    /// Points the header forward to `other`.
    pub fn set_next(&mut self, other: Link)
        ensures
            final(self).next_link() == other,
            final(self).prev_link() == old(self).prev_link(),
    {
        self.next = other;
    }

    /// Points the header back to `other`.
    pub fn set_prev(&mut self, other: Link)
        ensures
            final(self).prev_link() == other,
            final(self).next_link() == old(self).next_link(),
    {
        self.prev = other;
    }
}

/// One slot of the registry: the header, the reference-count cell and the
/// value of an object, side by side.
pub struct Object {
    header: Header,
    ref_count: ThreadedRefCount,
    held: bool,
    value: Option<Box<dyn CcDyn>>,
}

impl Object {
    /// The stored value, if it has not been dropped.
    pub fn value(&self) -> (value: Option<&Box<dyn CcDyn>>)
        ensures
            match value {
                Some(v) => self@.value == Some(*v),
                None => self@.value is None,
            },
    {
        self.value.as_ref()
    }
}

impl View for Object {
    type V = ObjectView;

    closed spec fn view(&self) -> ObjectView {
        ObjectView { count: self.ref_count.count(), held: self.held, value: self.value }
    }
}

/// The link that the node before position `k` of `order` points forward with:
/// to the object at `k`, or to the sentinel past either end.
pub open spec fn link_at(order: Seq<usize>, k: int) -> Link {
    if 0 <= k < order.len() {
        Link::Object(order[k])
    } else {
        Link::Head
    }
}

/// Distinct slot numbers below `bound` are at most `bound` many.
pub proof fn lemma_distinct_below(s: Seq<usize>, bound: nat)
    requires
        s.no_duplicates(),
        forall|k: int| 0 <= k < s.len() ==> s[k] < bound,
    ensures
        s.len() <= bound,
    decreases bound,
{
    if s.len() > 0 {
        if bound == 0 {
            assert(s[0] < bound);
        } else {
            let top = (bound - 1) as usize;
            if s.contains(top) {
                let p = s.index_of(top);
                let rest = s.remove(p);
                assert forall|k: int| 0 <= k < rest.len() implies rest[k] < bound - 1 by {
                    if k < p {
                        assert(rest[k] == s[k]);
                    } else {
                        assert(rest[k] == s[k + 1]);
                    }
                }
                assert(rest.no_duplicates());
                lemma_distinct_below(rest, (bound - 1) as nat);
            } else {
                assert forall|k: int| 0 <= k < s.len() implies s[k] < bound - 1 by {
                    assert(s.contains(s[k]));
                }
                lemma_distinct_below(s, (bound - 1) as nat);
            }
        }
    }
}

/// The registry of one object space: every object's slot, and the circular
/// doubly linked list that threads the tracked ones through the sentinel.
pub struct Registry {
    head: Header,
    objects: Vec<Object>,
    free: Vec<usize>,
    order: Ghost<Seq<usize>>,
}

impl View for Registry {
    type V = RegistryView;

    closed spec fn view(&self) -> RegistryView {
        RegistryView { order: self.order@, objects: Seq::new(self.objects@.len(), |i: int| self.objects@[i]@) }
    }
}

impl Registry {
    /// The list is sound: the links of the sentinel and of the objects spell
    /// out `order`, forward and backward, and every other header is unlinked.
    pub closed spec fn list_wf(&self) -> bool {
        let order = self.order@;
        &&& self.objects@.len() <= usize::MAX
        &&& order.no_duplicates()
        &&& forall|k: int| 0 <= k < order.len() ==> (#[trigger] order[k]) < self.objects@.len()
        &&& self.head.next == link_at(order, 0)
        &&& self.head.prev == link_at(order, order.len() - 1)
        &&& forall|k: int| 0 <= k < order.len() ==> {
            &&& (#[trigger] self.objects@[order[k] as int]).header.next == link_at(order, k + 1)
            &&& self.objects@[order[k] as int].header.prev == link_at(order, k - 1)
        }
        &&& forall|i: int| 0 <= i < self.objects@.len() && !order.contains(i as usize) ==>
            (#[trigger] self.objects@[i]).header.is_unlinked()
    }

    /// The slots agree with the list: exactly the objects in use that opted
    /// into tracking are linked; an unused slot holds nothing; and the slots
    /// kept for reuse are unused.
    pub closed spec fn cells_wf(&self) -> bool {
        &&& forall|i: int| 0 <= i < self.objects@.len() ==> {
            let o = #[trigger] self.objects@[i];
            &&& self.order@.contains(i as usize) <==> (o@.occupied() && o.ref_count.flagged())
            &&& !o@.occupied() ==> o.value is None
            &&& o.held ==> o.value is None && o.ref_count.flagged()
        }
        &&& self.free@.no_duplicates()
        &&& forall|f: int| 0 <= f < self.free@.len() ==> {
            &&& (#[trigger] self.free@[f]) < self.objects@.len()
            &&& !self.objects@[self.free@[f] as int]@.occupied()
        }
    }

    /// The invariant of a registry.
    pub open spec fn wf(&self) -> bool {
        self.list_wf() && self.cells_wf()
    }

    /// In a sound registry the linked objects are distinct objects in use.
    pub proof fn lemma_view_valid(&self)
        requires
            self.wf(),
        ensures
            self@.objects.len() <= usize::MAX,
            self@.order.no_duplicates(),
            self@.order.len() <= self@.objects.len(),
            forall|k: int| 0 <= k < self@.order.len() ==> self@.occupied(#[trigger] self@.order[k]),
            forall|i: usize| (#[trigger] self@.objects[i as int]).held && i < self@.objects.len() ==> self@.linked(i),
            forall|i: int|
                0 <= i < self@.objects.len() && !(#[trigger] self@.objects[i]).occupied()
                    ==> self@.objects[i].value is None,
            forall|i: int|
                0 <= i < self@.objects.len() && (#[trigger] self@.objects[i]).held ==> self@.objects[i].value is None,
    {
        lemma_distinct_below(self.order@, self.objects@.len());
        assert forall|k: int| 0 <= k < self@.order.len() implies self@.occupied(#[trigger] self@.order[k]) by {
            let i = self.order@[k];
            assert(self.order@.contains(i));
            assert(self.objects@[i as int]@.occupied());
        }
    }

    /// A registry without objects: the sentinel is linked to itself.
    pub fn new() -> (registry: Registry)
        ensures
            registry.wf(),
            registry@.order == Seq::<usize>::empty(),
            registry@.objects == Seq::<ObjectView>::empty(),
    {
        let registry = Registry {
            head: Header { next: Link::Head, prev: Link::Head },
            objects: Vec::new(),
            free: Vec::new(),
            order: Ghost(Seq::empty()),
        };
        assert(registry@.objects =~= Seq::<ObjectView>::empty());
        registry
    }

    /// An unlinked header, ready to be inserted.
    pub fn empty_header(&self) -> (header: Header)
        ensures
            header.is_unlinked(),
    {
        Header::new()
    }

    /// A fresh reference-count cell with one strong reference, for an object
    /// that is tracked if `track` is set.
    pub fn new_ref_count(&self, track: bool) -> (cell: ThreadedRefCount)
        ensures
            cell.count() == 1,
            cell.flagged() == track,
    {
        ThreadedRefCount::new(track)
    }

    /// The number of slots, used or not.
    pub fn capacity(&self) -> (n: usize)
        ensures
            n == self@.objects.len(),
    {
        self.objects.len()
    }

    /// Whether `self` and `other` hold the same in every slot, but for the
    /// headers, and keep the same slots for reuse.
    pub closed spec fn same_cells(&self, other: &Registry) -> bool {
        &&& self.objects@.len() == other.objects@.len()
        &&& self.free@ == other.free@
        &&& forall|i: int| 0 <= i < self.objects@.len() ==> {
            &&& (#[trigger] self.objects@[i]).ref_count == other.objects@[i].ref_count
            &&& self.objects@[i].held == other.objects@[i].held
            &&& self.objects@[i].value == other.objects@[i].value
        }
    }

    /// Registries with the same slots show the same objects.
    pub proof fn lemma_same_cells(&self, other: &Registry)
        requires
            self.same_cells(other),
        ensures
            self@.objects == other@.objects,
    {
        assert(self@.objects =~= other@.objects);
    }

    /// A registry with the list, the sentinel and the headers of `before`,
    /// and with more slots at most, whose headers are unlinked, has a sound
    /// list too.
    proof fn lemma_same_list(&self, before: &Registry)
        requires
            before.list_wf(),
            self.head == before.head,
            self.order@ == before.order@,
            before.objects@.len() <= self.objects@.len() <= usize::MAX,
            forall|i: int|
                0 <= i < before.objects@.len() ==> (#[trigger] self.objects@[i]).header == before.objects@[i].header,
            forall|i: int|
                before.objects@.len() <= i < self.objects@.len() ==> (
                #[trigger] self.objects@[i]).header.is_unlinked(),
        ensures
            self.list_wf(),
    {
        let order = self.order@;
        assert forall|k: int| 0 <= k < order.len() implies {
            &&& (#[trigger] self.objects@[order[k] as int]).header.next == link_at(order, k + 1)
            &&& self.objects@[order[k] as int].header.prev == link_at(order, k - 1)
        } by {
            assert(self.objects@[order[k] as int].header == before.objects@[order[k] as int].header);
        }
        assert forall|i: int| 0 <= i < self.objects@.len() && !order.contains(i as usize) implies (
        #[trigger] self.objects@[i]).header.is_unlinked() by {
            if i < before.objects@.len() {
                assert(self.objects@[i].header == before.objects@[i].header);
            }
        }
    }

    /// Links the object in slot `id` right behind the sentinel. The caller
    /// holds the structural lock, and the object is not linked yet.
    pub fn insert(&mut self, id: usize)
        requires
            old(self).list_wf(),
            id < old(self)@.objects.len(),
            !old(self)@.linked(id),
        ensures
            final(self).list_wf(),
            final(self)@.order == seq![id] + old(self)@.order,
            final(self)@.objects == old(self)@.objects,
            final(self).same_cells(old(self)),
    {
        let ghost old_order = self.order@;
        let ghost new_order = seq![id] + self.order@;
        let ghost old_objects = self.objects@;
        let next = self.head.next();
        self.objects[id].header.set_prev(Link::Head);
        self.objects[id].header.set_next(next);
        match next {
            Link::Object(first) => {
                assert(first == old_order[0]);
                self.objects[first].header.set_prev(Link::Object(id));
            },
            _ => {
                self.head.set_prev(Link::Object(id));
            },
        }
        self.head.set_next(Link::Object(id));
        self.order = Ghost(new_order);
        proof {
            assert(self@.objects =~= old(self)@.objects);
            assert(new_order[0] == id);
            assert forall|k: int| 1 <= k < new_order.len() implies new_order[k] == old_order[k - 1] by {}
            assert forall|i: int, j: int| 0 <= i < new_order.len() && 0 <= j < new_order.len() && i != j
                implies new_order[i] != new_order[j] by {
                if i >= 1 {
                    assert(old_order.contains(new_order[i]));
                }
                if j >= 1 {
                    assert(old_order.contains(new_order[j]));
                }
            }
            assert forall|k: int| 0 <= k < new_order.len() implies {
                &&& (#[trigger] self.objects@[new_order[k] as int]).header.next == link_at(new_order, k + 1)
                &&& self.objects@[new_order[k] as int].header.prev == link_at(new_order, k - 1)
            } by {
                if k >= 1 {
                    let i = old_order[k - 1];
                    assert(old_order.contains(i));
                    assert(old_objects[i as int].header.next == link_at(old_order, k));
                    assert(old_objects[i as int].header.prev == link_at(old_order, k - 2));
                }
            }
            assert forall|i: int| 0 <= i < self.objects@.len() && !new_order.contains(i as usize) implies (
            #[trigger] self.objects@[i]).header.is_unlinked() by {
                assert(i != id);
                if old_order.contains(i as usize) {
                    let k = old_order.index_of(i as usize);
                    assert(new_order[k + 1] == i);
                }
                if old_order.len() > 0 {
                    assert(new_order[1] == old_order[0]);
                }
            }
        }
    }

    /// Unlinks the object in slot `id` by splicing its neighbours together,
    /// and clears its header. The caller holds the structural lock, and the
    /// object is linked.
    pub fn remove(&mut self, id: usize)
        requires
            old(self).list_wf(),
            old(self)@.linked(id),
        ensures
            final(self).list_wf(),
            final(self)@.order == old(self)@.order_without(id),
            final(self)@.objects == old(self)@.objects,
            final(self).same_cells(old(self)),
    {
        let ghost old_order = self.order@;
        let ghost p = self.order@.index_of(id);
        let ghost new_order = self.order@.remove(p);
        let ghost old_objects = self.objects@;
        assert(old_order[p] == id);
        let next = self.objects[id].header.next();
        let prev = self.objects[id].header.prev();
        match prev {
            Link::Object(before) => {
                assert(before == old_order[p - 1]);
                self.objects[before].header.set_next(next);
            },
            _ => {
                self.head.set_next(next);
            },
        }
        match next {
            Link::Object(after) => {
                assert(after == old_order[p + 1]);
                self.objects[after].header.set_prev(prev);
            },
            _ => {
                self.head.set_prev(prev);
            },
        }
        self.objects[id].header.set_next(Link::Null);
        self.objects[id].header.set_prev(Link::Null);
        self.order = Ghost(new_order);
        proof {
            assert(self@.objects =~= old(self)@.objects);
            assert forall|k: int| 0 <= k < new_order.len() implies new_order[k] == (if k < p {
                old_order[k]
            } else {
                old_order[k + 1]
            }) by {}
            assert forall|k: int| 0 <= k < new_order.len() implies new_order[k] != id by {}
            assert forall|k: int| 0 <= k < new_order.len() implies {
                &&& (#[trigger] self.objects@[new_order[k] as int]).header.next == link_at(new_order, k + 1)
                &&& self.objects@[new_order[k] as int].header.prev == link_at(new_order, k - 1)
            } by {
                let q = if k < p { k } else { k + 1 };
                let i = old_order[q];
                assert(old_objects[i as int].header.next == link_at(old_order, q + 1));
                assert(old_objects[i as int].header.prev == link_at(old_order, q - 1));
                if p > 0 {
                    assert(old_order[p - 1] != i || q == p - 1);
                }
                if p + 1 < old_order.len() {
                    assert(old_order[p + 1] != i || q == p + 1);
                }
            }
            assert forall|i: int| 0 <= i < self.objects@.len() && !new_order.contains(i as usize) implies (
            #[trigger] self.objects@[i]).header.is_unlinked() by {
                if i != id {
                    if old_order.contains(i as usize) {
                        let q = old_order.index_of(i as usize);
                        assert(old_order[q] == i);
                        if q < p {
                            assert(new_order[q] == i);
                        } else {
                            assert(q != p);
                            assert(new_order[q - 1] == old_order[q]);
                        }
                    }
                    if p > 0 {
                        assert(new_order[p - 1] == old_order[p - 1]);
                    }
                    if p + 1 < old_order.len() {
                        assert(new_order[p] == old_order[p + 1]);
                    }
                }
            }
        }
    }

    /// Stores a fresh object with one strong reference in an unused slot and
    /// returns the slot. With `track` set the object is linked right behind
    /// the sentinel.
    pub fn create(&mut self, value: Box<dyn CcDyn>, track: bool) -> (id: usize)
        requires
            old(self).wf(),
        ensures
            final(self).wf(),
            id <= old(self)@.objects.len(),
            !old(self)@.occupied(id),
            final(self)@.objects[id as int].value is Some,
            final(self)@.objects[id as int].value->0 == value,
            final(self)@ == old(self)@.created(id, final(self)@.objects[id as int].value, track),
    {
        let stored = Some(value);
        let id = self.create_stored(stored, track);
        assert(self@.objects[id as int].value == stored);
        id
    }

    /// As `create`, for a value that is wrapped already: the slot holds
    /// `stored` as it is.
    pub(crate) fn create_stored(&mut self, stored: Option<Box<dyn CcDyn>>, track: bool) -> (id: usize)
        requires
            old(self).wf(),
            stored is Some,
        ensures
            final(self).wf(),
            id <= old(self)@.objects.len(),
            !old(self)@.occupied(id),
            final(self)@.objects[id as int].value == stored,
            final(self)@ == old(self)@.created(id, stored, track),
    {
        let header = self.empty_header();
        let ref_count = self.new_ref_count(track);
        self.adopt(header, ref_count, stored, track)
    }

    /// Puts a fresh object, made of an unlinked header, a cell with one
    /// reference and a value, into an unused slot, and links it if `track` is
    /// set.
    fn adopt(
        &mut self,
        header: Header,
        ref_count: ThreadedRefCount,
        value: Option<Box<dyn CcDyn>>,
        track: bool,
    ) -> (id: usize)
        requires
            old(self).wf(),
            header.is_unlinked(),
            ref_count.count() == 1,
            ref_count.flagged() == track,
            value is Some,
        ensures
            final(self).wf(),
            id <= old(self)@.objects.len(),
            !old(self)@.occupied(id),
            final(self)@.objects[id as int].value == value,
            final(self)@ == old(self)@.created(id, value, track),
    {
        let ghost fresh = Object { header, ref_count, held: false, value };
        let reused = self.free.pop();
        let id = match reused {
            Some(slot) => {
                assert(slot == old(self).free@[old(self).free@.len() - 1]);
                self.objects[slot] = Object { header, ref_count, held: false, value };
                slot
            },
            None => {
                let slot = self.objects.len();
                self.objects.push(Object { header, ref_count, held: false, value });
                slot
            },
        };
        let ghost unlinked = *self;
        let ghost filled = self.objects.len();
        proof {
            assert(!self.order@.contains(id)) by {
                if self.order@.contains(id) {
                    let k = self.order@.index_of(id);
                    assert(old(self).order@[k] == id);
                }
            }
            self.lemma_same_list(old(self));
        }
        if track {
            self.insert(id);
        }
        proof {
            let order = self.order@;
            assert forall|i: int| 0 <= i < self.objects@.len() implies {
                let o = #[trigger] self.objects@[i];
                &&& order.contains(i as usize) <==> (o@.occupied() && o.ref_count.flagged())
                &&& !o@.occupied() ==> o.value is None
                &&& o.held ==> o.value is None && o.ref_count.flagged()
            } by {
                assert(self.objects@[i].ref_count == unlinked.objects@[i].ref_count);
                if track {
                    assert(order[0] == id);
                    if i != id && order.contains(i as usize) {
                        let k = order.index_of(i as usize);
                        assert(old(self).order@[k - 1] == i);
                    }
                    if i != id && old(self).order@.contains(i as usize) {
                        let k = old(self).order@.index_of(i as usize);
                        assert(order[k + 1] == i);
                    }
                }
                if i != id {
                    assert(unlinked.objects@[i] == old(self).objects@[i]);
                }
            }
            assert forall|f: int| 0 <= f < self.free@.len() implies {
                &&& (#[trigger] self.free@[f]) < self.objects@.len()
                &&& !self.objects@[self.free@[f] as int]@.occupied()
            } by {
                assert(self.free@[f] == old(self).free@[f]);
                assert(self.free@[f] != id);
                let slot = self.free@[f] as int;
                assert(self.objects@[slot].ref_count == unlinked.objects@[slot].ref_count);
            }
            if track {
                self.lemma_same_cells(&unlinked);
            }
            assert(unlinked.objects@[id as int] == fresh);
            assert(unlinked@.objects =~= old(self)@.created(id, fresh.value, track).objects);
        }
        id
    }

    /// Counts one more strong reference to the object in slot `id`, if it has
    /// one to copy and the count has room. Returns whether it did.
    pub fn clone_ref(&mut self, id: usize) -> (done: bool)
        requires
            old(self).wf(),
        ensures
            final(self).wf(),
            done == old(self)@.can_retain(id),
            final(self)@ == (if done { old(self)@.retained(id) } else { old(self)@ }),
    {
        if id < self.objects.len() && self.objects[id].ref_count.ref_count() >= 1
            && self.objects[id].ref_count.can_inc() {
            self.objects[id].ref_count.inc_ref();
            proof {
                self.lemma_same_list(old(self));
                assert(self@.objects =~= old(self)@.retained(id).objects);
            }
            true
        } else {
            false
        }
    }

    /// Gives up one strong reference to the object in slot `id`. The last one
    /// frees the object, unless a collection in progress holds it: the object
    /// is unlinked, its slot is kept for reuse, and its value is handed out
    /// for the caller to drop once the structural lock is released.
    pub fn release(&mut self, id: usize) -> (value: Option<Box<dyn CcDyn>>)
        requires
            old(self).wf(),
        ensures
            final(self).wf(),
            final(self)@ == old(self)@.released(id),
            value == (if old(self)@.frees(id) { old(self)@.objects[id as int].value } else { None }),
    {
        if id >= self.objects.len() || self.objects[id].ref_count.ref_count() == 0 {
            return None;
        }
        let before = self.objects[id].ref_count.dec_ref();
        proof {
            self.lemma_same_list(old(self));
        }
        if before == 1 && !self.objects[id].held {
            if self.objects[id].ref_count.is_tracked() {
                assert(old(self).objects@[id as int]@.occupied());
                self.remove(id);
            }
            let ghost spliced = *self;
            let value = self.objects[id].value.take();
            self.objects[id].ref_count = ThreadedRefCount::vacant();
            self.free.push(id);
            proof {
                self.lemma_vacated(old(self), &spliced, id);
            }
            value
        } else {
            proof {
                assert forall|i: int| 0 <= i < self.objects@.len() implies {
                    let o = #[trigger] self.objects@[i];
                    &&& self.order@.contains(i as usize) <==> (o@.occupied() && o.ref_count.flagged())
                    &&& !o@.occupied() ==> o.value is None
                    &&& o.held ==> o.value is None && o.ref_count.flagged()
                } by {
                    if i != id {
                        assert(self.objects@[i] == old(self).objects@[i]);
                    }
                }
                assert(self@.objects =~= old(self)@.released(id).objects);
            }
            None
        }
    }

    /// Whether the object in slot `id` is linked into the list.
    pub fn is_linked(&self, id: usize) -> (answer: bool)
        requires
            self.list_wf(),
            id < self@.objects.len(),
        ensures
            answer == self@.linked(id),
    {
        proof {
            if self.order@.contains(id) {
                let k = self.order@.index_of(id);
                assert(self.objects@[self.order@[k] as int].header.next == link_at(self.order@, k + 1));
            }
        }
        match self.objects[id].header.next() {
            Link::Null => false,
            _ => true,
        }
    }

    /// Takes a snapshot for a collection pass: for every slot, whether a
    /// tracked object is there, its count, and what its value reports when
    /// traced. The caller holds both locks, so nothing changes meanwhile.
    pub fn scan(&self) -> (g: Vec<Node>)
        requires
            self.wf(),
        ensures
            self@.scanned(g@),
    {
        let n = self.objects.len();
        let mut g: Vec<Node> = Vec::new();
        let mut i: usize = 0;
        while i < n
            invariant
                self.wf(),
                i <= n,
                n == self.objects@.len(),
                g.len() == i,
                forall|j: usize|
                    j < i ==> {
                        &&& (#[trigger] g[j as int]).linked == self@.linked(j)
                        &&& g[j as int].count == self@.objects[j as int].count
                        &&& reported(self@.objects[j as int].value, g[j as int].linked, g[j as int].edges@)
                    },
            decreases n - i,
        {
            let linked = self.is_linked(i);
            let count = self.objects[i].ref_count.ref_count();
            let mut tracer = Tracer::new();
            if linked {
                if let Some(value) = self.objects[i].value() {
                    value.gc_traverse(&mut tracer);
                }
            }
            let ghost seen = tracer@;
            let edges = tracer.into_ids();
            assert(reported(self@.objects[i as int].value, linked, seen));
            g.push(Node { linked, count, edges });
            i += 1;
        }
        g
    }

    /// The first step of reclaiming: takes the value out of every object
    /// that `garbage` flags, and holds the object so that its slot stays its
    /// own while the values are dropped. Returns the slots taken and their
    /// values. The values are to be dropped after both locks are released,
    /// and the slots given up with `end_collect` after that.
    pub fn begin_collect(&mut self, garbage: &Vec<bool>) -> (taken: (Vec<usize>, Vec<Box<dyn CcDyn>>))
        requires
            old(self).wf(),
        ensures
            final(self).wf(),
            final(self)@ == old(self)@.holding(garbage@),
            taken.0@ == old(self)@.taken(garbage@),
            taken.1@ == old(self)@.taken_values(garbage@),
    {
        let n = self.objects.len();
        let mut ids: Vec<usize> = Vec::new();
        let mut values: Vec<Box<dyn CcDyn>> = Vec::new();
        let mut j: usize = 0;
        proof {
            assert(self@.objects =~= old(self)@.held_upto(garbage@, 0).objects);
        }
        while j < n
            invariant
                self.wf(),
                j <= n,
                n == self.objects@.len(),
                n == old(self)@.objects.len(),
                self@ == old(self)@.held_upto(garbage@, j as nat),
                ids@ == old(self)@.chosen_upto(garbage@, j as nat),
                values@ == old(self)@.values_upto(garbage@, j as nat),
            decreases n - j,
        {
            let ghost before = *self;
            assert(self@.objects[j as int] == old(self)@.objects[j as int]);
            let pick = j < garbage.len() && garbage[j] && self.is_linked(j) && !self.objects[j].held;
            assert(pick == old(self)@.chosen(garbage@, j));
            if pick {
                self.objects[j].held = true;
                let value = self.objects[j].value.take();
                match value {
                    Some(v) => {
                        values.push(v);
                    },
                    None => {},
                }
                ids.push(j);
                proof {
                    self.lemma_same_list(&before);
                    assert forall|i: int| 0 <= i < self.objects@.len() implies {
                        let o = #[trigger] self.objects@[i];
                        &&& self.order@.contains(i as usize) <==> (o@.occupied() && o.ref_count.flagged())
                        &&& !o@.occupied() ==> o.value is None
                        &&& o.held ==> o.value is None && o.ref_count.flagged()
                    } by {
                        if i != j {
                            assert(self.objects@[i] == before.objects@[i]);
                        } else {
                            assert(self.objects@[i].ref_count == before.objects@[i].ref_count);
                        }
                    }
                    assert forall|f: int| 0 <= f < self.free@.len() implies {
                        &&& (#[trigger] self.free@[f]) < self.objects@.len()
                        &&& !self.objects@[self.free@[f] as int]@.occupied()
                    } by {
                        assert(self.free@[f] == before.free@[f]);
                        assert(self.free@[f] != j);
                    }
                }
            }
            proof {
                let target = old(self)@.held_upto(garbage@, (j + 1) as nat).objects;
                assert forall|i: int| 0 <= i < n implies self@.objects[i] == target[i] by {
                    assert(before@.objects[i] == old(self)@.held_upto(garbage@, j as nat).objects[i]);
                    if i != j {
                        assert(self.objects@[i]@ == before.objects@[i]@);
                    } else {
                        assert(self.objects@[i].ref_count == before.objects@[i].ref_count);
                    }
                }
                assert(self@.objects =~= target);
            }
            j += 1;
        }
        (ids, values)
    }

    /// The last step of reclaiming, once the values are dropped: unlinks the
    /// objects in `ids` that this collection still holds and empties their
    /// slots. Returns how many it gave up.
    pub fn end_collect(&mut self, ids: &Vec<usize>) -> (freed: usize)
        requires
            old(self).wf(),
        ensures
            final(self).wf(),
            final(self)@ == old(self)@.swept(ids@),
            freed == old(self)@.swept_count(ids@),
    {
        let mut freed: usize = 0;
        let mut k: usize = 0;
        while k < ids.len()
            invariant
                self.wf(),
                k <= ids.len(),
                freed <= k,
                self@ == old(self)@.swept(ids@.take(k as int)),
                freed == old(self)@.swept_count(ids@.take(k as int)),
            decreases ids.len() - k,
        {
            let id = ids[k];
            proof {
                assert(ids@.take(k + 1).drop_last() =~= ids@.take(k as int));
            }
            if id < self.objects.len() && self.objects[id].held {
                self.give_up(id);
                freed += 1;
            }
            k += 1;
        }
        proof {
            assert(ids@.take(ids.len() as int) =~= ids@);
        }
        freed
    }

    /// Emptying the slot of an unlinked object keeps the registry sound.
    /// `before` is the registry with the object in use, `spliced` the one
    /// with the object out of the list, and `self` the one with the slot
    /// emptied and kept for reuse.
    proof fn lemma_vacated(&self, before: &Registry, spliced: &Registry, id: usize)
        requires
            before.wf(),
            id < before.objects@.len(),
            before.objects@[id as int]@.occupied(),
            spliced.list_wf(),
            spliced.order@ == before@.order_without(id),
            spliced.objects@.len() == before.objects@.len(),
            forall|i: int|
                0 <= i < before.objects@.len() && i != id ==> {
                    &&& (#[trigger] spliced.objects@[i]).ref_count == before.objects@[i].ref_count
                    &&& spliced.objects@[i].held == before.objects@[i].held
                    &&& spliced.objects@[i].value == before.objects@[i].value
                },
            self.head == spliced.head,
            self.order@ == spliced.order@,
            self.objects@.len() == spliced.objects@.len(),
            forall|i: int|
                0 <= i < self.objects@.len() ==> (#[trigger] self.objects@[i]).header == spliced.objects@[i].header,
            forall|i: int|
                0 <= i < self.objects@.len() && i != id ==> (#[trigger] self.objects@[i]) == spliced.objects@[i],
            self.objects@[id as int]@ == ObjectView::vacant(),
            self.free@ == before.free@.push(id),
        ensures
            self.wf(),
            self@ == (RegistryView {
                order: before@.order_without(id),
                objects: before@.objects.update(id as int, ObjectView::vacant()),
            }),
    {
        let order = self.order@;
        self.lemma_same_list(spliced);
        let old_order = before.order@;
        if old_order.contains(id) {
            let p = old_order.index_of(id);
            assert forall|k: int| 0 <= k < order.len() implies order[k] != id by {
                if k < p {
                    assert(order[k] == old_order[k]);
                } else {
                    assert(order[k] == old_order[k + 1]);
                }
            }
        }
        assert(!order.contains(id));
        assert forall|i: int| 0 <= i < self.objects@.len() implies {
            let o = #[trigger] self.objects@[i];
            &&& order.contains(i as usize) <==> (o@.occupied() && o.ref_count.flagged())
            &&& !o@.occupied() ==> o.value is None
            &&& o.held ==> o.value is None && o.ref_count.flagged()
        } by {
            if i != id {
                assert(self.objects@[i] == spliced.objects@[i]);
                assert(spliced.objects@[i].ref_count == before.objects@[i].ref_count);
                if old_order.contains(id) {
                    let p = old_order.index_of(id);
                    if order.contains(i as usize) {
                        let k = order.index_of(i as usize);
                        if k < p {
                            assert(old_order[k] == i);
                        } else {
                            assert(old_order[k + 1] == i);
                        }
                    }
                    if old_order.contains(i as usize) {
                        let q = old_order.index_of(i as usize);
                        assert(q != p);
                        if q < p {
                            assert(order[q] == i);
                        } else {
                            assert(order[q - 1] == old_order[q]);
                        }
                    }
                }
            }
        }
        let free = self.free@;
        assert forall|i: int, j: int| 0 <= i < free.len() && 0 <= j < free.len() && i != j implies free[i]
            != free[j] by {
            if i < before.free@.len() {
                assert(self.free@[i] == before.free@[i]);
            }
            if j < before.free@.len() {
                assert(self.free@[j] == before.free@[j]);
            }
        }
        assert forall|f: int| 0 <= f < self.free@.len() implies {
            &&& (#[trigger] self.free@[f]) < self.objects@.len()
            &&& !self.objects@[self.free@[f] as int]@.occupied()
        } by {
            if f < before.free@.len() {
                let slot = before.free@[f];
                assert(self.free@[f] == slot);
                assert(slot != id);
                assert(self.objects@[slot as int] == spliced.objects@[slot as int]);
                assert(spliced.objects@[slot as int].ref_count == before.objects@[slot as int].ref_count);
            }
        }
        assert(self@.objects =~= before@.objects.update(id as int, ObjectView::vacant()));
    }

    /// Unlinks the held object in slot `id` and empties its slot.
    fn give_up(&mut self, id: usize)
        requires
            old(self).wf(),
            old(self)@.holds_back(id),
        ensures
            final(self).wf(),
            final(self)@ == old(self)@.reclaimed(id),
    {
        assert(old(self).objects@[id as int]@.occupied());
        self.remove(id);
        let ghost spliced = *self;
        self.objects[id].held = false;
        self.objects[id].ref_count = ThreadedRefCount::vacant();
        self.free.push(id);
        proof {
            self.lemma_vacated(old(self), &spliced, id);
        }
    }

    /// The number of strong references to the object in slot `id`: zero for a
    /// slot that is unused or does not exist.
    pub fn ref_count(&self, id: usize) -> (count: usize)
        ensures
            count == (if id < self@.objects.len() { self@.objects[id as int].count } else { 0 }),
    {
        if id < self.objects.len() {
            self.objects[id].ref_count.ref_count()
        } else {
            0
        }
    }

    /// Counts the tracked objects by walking the list once.
    pub fn count_tracked(&self) -> (count: usize)
        requires
            self.list_wf(),
        ensures
            count == self@.order.len(),
    {
        let slots = self.objects.len();
        proof {
            lemma_distinct_below(self.order@, slots as nat);
        }
        let mut count: usize = 0;
        let mut cur = self.head.next();
        loop
            invariant
                self.list_wf(),
                self.order@.len() <= usize::MAX,
                count <= self.order@.len(),
                cur == link_at(self.order@, count as int),
            ensures
                count == self.order@.len(),
            decreases self.order@.len() - count,
        {
            match cur {
                Link::Object(id) => {
                    assert(id == self.order@[count as int]);
                    cur = self.objects[id].header.next();
                    count += 1;
                },
                _ => {
                    break ;
                },
            }
        }
        count
    }
}

} // verus!
