use vstd::prelude::*;
use crate::cc::CcDyn;
use crate::graph::{is_unreachable, Node};

verus! {

/// What the specification sees of a slot.
pub struct ObjectView {
    /// The number of strong references.
    pub count: nat,
    /// Whether a collection in progress keeps the slot.
    pub held: bool,
    /// The stored value, until it is dropped.
    pub value: Option<Box<dyn CcDyn>>,
}

impl ObjectView {
    /// A slot in use: referenced, or kept by a collection in progress.
    pub open spec fn occupied(self) -> bool {
        self.count >= 1 || self.held
    }

    /// The slot of a fresh object that holds `value`.
    pub open spec fn fresh(value: Option<Box<dyn CcDyn>>) -> ObjectView {
        ObjectView { count: 1, held: false, value }
    }

    /// An unused slot.
    pub open spec fn vacant() -> ObjectView {
        ObjectView { count: 0, held: false, value: None }
    }
}

/// What tracing a slot's value may have reported: for a tracked object with
/// a value, the references of the value where the value alone decides them;
/// nothing for any other slot.
pub open spec fn reported(value: Option<Box<dyn CcDyn>>, linked: bool, edges: Seq<usize>) -> bool {
    if linked && value is Some {
        value->0.gc_edges() matches Some(e) ==> edges == e
    } else {
        edges.len() == 0
    }
}

/// What the specification sees of a registry: the linked objects in list
/// order, first the one that follows the sentinel, and every slot.
pub struct RegistryView {
    pub order: Seq<usize>,
    pub objects: Seq<ObjectView>,
}

impl RegistryView {
    /// Whether `id` names a slot in use.
    pub open spec fn occupied(self, id: usize) -> bool {
        id < self.objects.len() && self.objects[id as int].occupied()
    }

    /// Whether the object `id` is linked into the list.
    pub open spec fn linked(self, id: usize) -> bool {
        self.order.contains(id)
    }

    /// The list without the object `id`.
    pub open spec fn order_without(self, id: usize) -> Seq<usize> {
        if self.order.contains(id) {
            self.order.remove(self.order.index_of(id))
        } else {
            self.order
        }
    }

    /// The registry after a fresh object went into the unused slot `id`,
    /// linked right behind the sentinel if `track` is set.
    pub open spec fn created(self, id: usize, value: Option<Box<dyn CcDyn>>, track: bool) -> RegistryView {
        RegistryView {
            order: if track { seq![id] + self.order } else { self.order },
            objects: if id == self.objects.len() {
                self.objects.push(ObjectView::fresh(value))
            } else {
                self.objects.update(id as int, ObjectView::fresh(value))
            },
        }
    }

    /// Whether a strong reference to `id` can be copied.
    pub open spec fn can_retain(self, id: usize) -> bool {
        id < self.objects.len() && 1 <= self.objects[id as int].count < usize::MAX
    }

    /// The registry after one more strong reference to `id` was counted.
    pub open spec fn retained(self, id: usize) -> RegistryView {
        let o = self.objects[id as int];
        RegistryView {
            order: self.order,
            objects: self.objects.update(id as int, ObjectView { count: o.count + 1, ..o }),
        }
    }

    /// Whether giving up one strong reference to `id` frees the object.
    pub open spec fn frees(self, id: usize) -> bool {
        id < self.objects.len() && self.objects[id as int].count == 1 && !self.objects[id as int].held
    }

    /// The registry after one strong reference to `id` was given up: nothing
    /// changes where `id` has none; the last one unlinks the object and
    /// empties its slot, unless a collection in progress keeps it.
    pub open spec fn released(self, id: usize) -> RegistryView {
        if !(id < self.objects.len() && self.objects[id as int].count >= 1) {
            self
        } else if self.frees(id) {
            RegistryView {
                order: self.order_without(id),
                objects: self.objects.update(id as int, ObjectView::vacant()),
            }
        } else {
            let o = self.objects[id as int];
            RegistryView {
                order: self.order,
                objects: self.objects.update(id as int, ObjectView { count: (o.count - 1) as nat, ..o }),
            }
        }
    }

    /// Whether `g` is a snapshot of this registry: slot by slot, whether a
    /// tracked object is there, its count, and what tracing it reported.
    pub open spec fn scanned(self, g: Seq<Node>) -> bool {
        &&& g.len() == self.objects.len()
        &&& forall|i: usize| i < g.len() ==> {
            &&& (#[trigger] g[i as int]).linked == self.linked(i)
            &&& g[i as int].count == self.objects[i as int].count
            &&& reported(self.objects[i as int].value, g[i as int].linked, g[i as int].edges@)
        }
    }

    /// Whether a collection that found the slots flagged in `garbage`
    /// unreachable takes the object in slot `id`: it is flagged and linked,
    /// and no other collection holds it.
    pub open spec fn chosen(self, garbage: Seq<bool>, id: usize) -> bool {
        &&& id < self.objects.len()
        &&& id < garbage.len()
        &&& garbage[id as int]
        &&& self.linked(id)
        &&& !self.objects[id as int].held
    }

    /// The slots below `n` that the collection takes, in rising order.
    pub open spec fn chosen_upto(self, garbage: Seq<bool>, n: nat) -> Seq<usize>
        decreases n,
    {
        if n == 0 {
            Seq::empty()
        } else {
            let below = self.chosen_upto(garbage, (n - 1) as nat);
            if self.chosen(garbage, (n - 1) as usize) {
                below.push((n - 1) as usize)
            } else {
                below
            }
        }
    }

    /// The values of the slots below `n` that the collection takes.
    pub open spec fn values_upto(self, garbage: Seq<bool>, n: nat) -> Seq<Box<dyn CcDyn>>
        decreases n,
    {
        if n == 0 {
            Seq::empty()
        } else {
            let below = self.values_upto(garbage, (n - 1) as nat);
            if self.chosen(garbage, (n - 1) as usize) && self.objects[n - 1].value is Some {
                below.push(self.objects[n - 1].value->0)
            } else {
                below
            }
        }
    }

    /// The registry after the collection took its objects from the slots
    /// below `n`.
    pub open spec fn held_upto(self, garbage: Seq<bool>, n: nat) -> RegistryView {
        RegistryView {
            order: self.order,
            objects: Seq::new(
                self.objects.len(),
                |i: int|
                    if i < n && self.chosen(garbage, i as usize) {
                        ObjectView { count: self.objects[i].count, held: true, value: None }
                    } else {
                        self.objects[i]
                    },
            ),
        }
    }

    /// The slots that the collection takes, in rising order.
    pub open spec fn taken(self, garbage: Seq<bool>) -> Seq<usize> {
        self.chosen_upto(garbage, self.objects.len())
    }

    /// The values of the slots that the collection takes, in the order of
    /// the slots.
    pub open spec fn taken_values(self, garbage: Seq<bool>) -> Seq<Box<dyn CcDyn>> {
        self.values_upto(garbage, self.objects.len())
    }

    /// The registry after the collection took its objects: each is held and
    /// has lost its value; the list is as it was.
    pub open spec fn holding(self, garbage: Seq<bool>) -> RegistryView {
        self.held_upto(garbage, self.objects.len())
    }

    /// Whether a collection in progress holds the object in slot `id`.
    pub open spec fn holds_back(self, id: usize) -> bool {
        id < self.objects.len() && self.objects[id as int].held
    }

    /// The registry after a collection gave up the object in slot `id`, if it
    /// held it: the object is unlinked and its slot emptied.
    pub open spec fn reclaimed(self, id: usize) -> RegistryView {
        if self.holds_back(id) {
            RegistryView {
                order: self.order_without(id),
                objects: self.objects.update(id as int, ObjectView::vacant()),
            }
        } else {
            self
        }
    }

    /// The registry after a collection gave up the objects in `ids`, one
    /// after the other.
    pub open spec fn swept(self, ids: Seq<usize>) -> RegistryView
        decreases ids.len(),
    {
        if ids.len() == 0 {
            self
        } else {
            self.swept(ids.drop_last()).reclaimed(ids.last())
        }
    }

    /// How many of the objects in `ids` a collection gives up.
    pub open spec fn swept_count(self, ids: Seq<usize>) -> nat
        decreases ids.len(),
    {
        if ids.len() == 0 {
            0
        } else {
            self.swept_count(ids.drop_last()) + if self.swept(ids.drop_last()).holds_back(ids.last()) {
                1nat
            } else {
                0nat
            }
        }
    }

    /// Whether `garbage` flags exactly the objects that are unreachable in
    /// the snapshot `g`.
    pub open spec fn flags_unreachable(g: Seq<Node>, garbage: Seq<bool>) -> bool {
        &&& garbage.len() == g.len()
        &&& forall|j: int| 0 <= j < g.len() ==> garbage[j] == is_unreachable(g, j)
    }

    /// The registry after a whole collection pass that found the slots
    /// flagged in `garbage` unreachable and that nothing interrupted: the
    /// objects are held, their values dropped, and the objects given up.
    pub open spec fn collected(self, garbage: Seq<bool>) -> RegistryView {
        self.holding(garbage).swept(self.taken(garbage))
    }
}

} // verus!
