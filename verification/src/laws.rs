use vstd::prelude::*;
use crate::graph::{is_unreachable, live, Node};
use crate::cc::CcDyn;
use crate::view::{ObjectView, RegistryView};

verus! {

impl RegistryView {
    /// Every creation of a tracked object adds exactly one entry to the list,
    /// and never one that is there already: whatever the order in which
    /// threads get the structural lock, no entry is lost or doubled.
    pub proof fn lemma_creation_adds_one(self, id: usize, value: Option<Box<dyn CcDyn>>)
        requires
            self.order.no_duplicates(),
            forall|k: int| 0 <= k < self.order.len() ==> self.occupied(#[trigger] self.order[k]),
            !self.occupied(id),
        ensures
            self.created(id, value, true).order.len() == self.order.len() + 1,
            self.created(id, value, true).order.no_duplicates(),
            self.created(id, value, true).linked(id),
            forall|other: usize| self.linked(other) ==> self.created(id, value, true).linked(other),
    {
        let after = self.created(id, value, true).order;
        assert(after[0] == id);
        assert forall|k: int| 1 <= k < after.len() implies after[k] == self.order[k - 1] by {}
        assert forall|i: int, j: int| 0 <= i < after.len() && 0 <= j < after.len() && i != j implies after[i]
            != after[j] by {
            if i >= 1 {
                assert(self.occupied(self.order[i - 1]));
            }
            if j >= 1 {
                assert(self.occupied(self.order[j - 1]));
            }
        }
        assert forall|other: usize| self.linked(other) implies self.created(id, value, true).linked(other) by {
            let k = self.order.index_of(other);
            assert(after[k + 1] == other);
        }
    }

    /// The slots that a collection takes are slots below `n` that it chose,
    /// and it takes every such slot.
    pub proof fn lemma_chosen_upto(self, garbage: Seq<bool>, n: nat)
        ensures
            forall|k: int|
                0 <= k < self.chosen_upto(garbage, n).len() ==> {
                    &&& (#[trigger] self.chosen_upto(garbage, n)[k]) < n
                    &&& self.chosen(garbage, self.chosen_upto(garbage, n)[k])
                },
            forall|id: usize| id < n && self.chosen(garbage, id) ==> self.chosen_upto(garbage, n).contains(id),
        decreases n,
    {
        if n > 0 {
            let below = self.chosen_upto(garbage, (n - 1) as nat);
            let all = self.chosen_upto(garbage, n);
            self.lemma_chosen_upto(garbage, (n - 1) as nat);
            assert forall|id: usize| id < n && self.chosen(garbage, id) implies all.contains(id) by {
                if id < n - 1 {
                    let k = below.index_of(id);
                    assert(all[k] == id);
                } else {
                    assert(all[all.len() - 1] == id);
                }
            }
        }
    }

    /// Unlinking `gone` leaves the other objects linked as they were, and
    /// `gone` unlinked.
    pub proof fn lemma_order_without(self, gone: usize, id: usize)
        requires
            self.order.no_duplicates(),
        ensures
            self.order_without(gone).no_duplicates(),
            !self.order_without(gone).contains(gone),
            id != gone ==> self.order_without(gone).contains(id) == self.order.contains(id),
    {
        let order = self.order;
        let rest = self.order_without(gone);
        if order.contains(gone) {
            let p = order.index_of(gone);
            assert forall|k: int| 0 <= k < rest.len() implies rest[k] == (if k < p {
                order[k]
            } else {
                order[k + 1]
            }) by {}
            if id != gone && order.contains(id) {
                let q = order.index_of(id);
                if q < p {
                    assert(rest[q] == id);
                } else {
                    assert(rest[q - 1] == id);
                }
            }
        }
    }

    /// What giving up the objects in `ids` does to the slot `id`: nothing if
    /// `id` is not among them; if it is, and the object was held, the slot is
    /// emptied and the object unlinked.
    pub proof fn lemma_swept(self, ids: Seq<usize>, id: usize)
        requires
            self.order.no_duplicates(),
            id < self.objects.len(),
        ensures
            self.swept(ids).order.no_duplicates(),
            self.swept(ids).objects.len() == self.objects.len(),
            !ids.contains(id) ==> self.swept(ids).objects[id as int] == self.objects[id as int]
                && self.swept(ids).linked(id) == self.linked(id),
            ids.contains(id) && self.objects[id as int].held ==> self.swept(ids).objects[id as int]
                == ObjectView::vacant() && !self.swept(ids).linked(id),
        decreases ids.len(),
    {
        if ids.len() > 0 {
            let before = self.swept(ids.drop_last());
            let last = ids.last();
            self.lemma_swept(ids.drop_last(), id);
            before.lemma_order_without(last, id);
            assert(ids[ids.len() - 1] == last);
            if ids.drop_last().contains(id) {
                let k = ids.drop_last().index_of(id);
                assert(ids[k] == id);
            }
            if ids.contains(id) && last != id {
                let k = ids.index_of(id);
                assert(ids.drop_last()[k] == id);
            }
        }
    }

    /// A collection pass never reclaims an object that references lead to
    /// from a root, however many cycles it is part of: the object stays
    /// linked, with its count and its value.
    pub proof fn lemma_collection_spares_live(self, g: Seq<Node>, garbage: Seq<bool>, id: usize)
        requires
            self.order.no_duplicates(),
            self.scanned(g),
            Self::flags_unreachable(g, garbage),
            live(g, id as int),
            0 <= id < g.len(),
        ensures
            !self.chosen(garbage, id),
            self.collected(garbage).objects[id as int] == self.objects[id as int],
            self.collected(garbage).linked(id) == self.linked(id),
    {
        let n = self.objects.len();
        self.lemma_chosen_upto(garbage, n);
        let ids = self.chosen_upto(garbage, n);
        if ids.contains(id) {
            let k = ids.index_of(id);
            assert(self.chosen(garbage, ids[k]));
        }
        self.held_upto(garbage, n).lemma_swept(ids, id);
    }

    /// A collection pass reclaims every unreachable object that no other
    /// pass holds: the object is unlinked and its slot emptied.
    pub proof fn lemma_collection_reclaims_unreachable(self, g: Seq<Node>, garbage: Seq<bool>, id: usize)
        requires
            self.order.no_duplicates(),
            self.scanned(g),
            Self::flags_unreachable(g, garbage),
            is_unreachable(g, id as int),
            !self.objects[id as int].held,
        ensures
            self.chosen(garbage, id),
            !self.collected(garbage).linked(id),
            self.collected(garbage).objects[id as int] == ObjectView::vacant(),
    {
        let n = self.objects.len();
        assert(g[id as int].linked);
        self.lemma_chosen_upto(garbage, n);
        self.held_upto(garbage, n).lemma_swept(self.chosen_upto(garbage, n), id);
    }

    /// Where no object is unreachable, and so where every tracked object is
    /// referred to from outside or nothing is tracked at all, a collection
    /// pass takes nothing and changes nothing, as often as it runs.
    pub proof fn lemma_nothing_unreachable_nothing_changes(self, g: Seq<Node>, garbage: Seq<bool>)
        requires
            self.scanned(g),
            Self::flags_unreachable(g, garbage),
            forall|j: int| !is_unreachable(g, j),
        ensures
            self.taken(garbage) == Seq::<usize>::empty(),
            self.holding(garbage) == self,
            self.collected(garbage) == self,
    {
        let n = self.objects.len();
        self.lemma_chosen_upto(garbage, n);
        let ids = self.chosen_upto(garbage, n);
        if ids.len() > 0 {
            assert(self.chosen(garbage, ids[0]));
            assert(is_unreachable(g, ids[0] as int));
        }
        assert(ids =~= Seq::<usize>::empty());
        assert(self.held_upto(garbage, n).objects =~= self.objects);
    }

    /// A collection takes no slot twice.
    pub proof fn lemma_chosen_distinct(self, garbage: Seq<bool>, n: nat)
        requires
            n <= usize::MAX,
        ensures
            self.chosen_upto(garbage, n).no_duplicates(),
        decreases n,
    {
        if n > 0 {
            let below = self.chosen_upto(garbage, (n - 1) as nat);
            let all = self.chosen_upto(garbage, n);
            self.lemma_chosen_distinct(garbage, (n - 1) as nat);
            self.lemma_chosen_upto(garbage, (n - 1) as nat);
            assert forall|i: int, j: int| 0 <= i < all.len() && 0 <= j < all.len() && i != j implies all[i]
                != all[j] by {
                if i < below.len() {
                    assert(all[i] == below[i]);
                }
                if j < below.len() {
                    assert(all[j] == below[j]);
                }
            }
        }
    }

    /// Giving up distinct objects that are all held gives up every one.
    pub proof fn lemma_swept_count(self, ids: Seq<usize>)
        requires
            self.order.no_duplicates(),
            ids.no_duplicates(),
            forall|k: int| 0 <= k < ids.len() ==> self.holds_back(#[trigger] ids[k]),
        ensures
            self.swept_count(ids) == ids.len(),
        decreases ids.len(),
    {
        if ids.len() > 0 {
            let last = ids.last();
            self.lemma_swept_count(ids.drop_last());
            assert(self.holds_back(ids[ids.len() - 1]));
            if ids.drop_last().contains(last) {
                let k = ids.drop_last().index_of(last);
                assert(ids[k] == last);
            }
            self.lemma_swept(ids.drop_last(), last);
        }
    }

    /// The number that a collection pass reports is the number of objects
    /// that it reclaims: it gives up every object that it took.
    pub proof fn lemma_collection_counts(self, garbage: Seq<bool>)
        requires
            self.order.no_duplicates(),
            self.objects.len() <= usize::MAX,
        ensures
            self.holding(garbage).swept_count(self.taken(garbage)) == self.taken(garbage).len(),
    {
        let n = self.objects.len();
        let ids = self.chosen_upto(garbage, n);
        self.lemma_chosen_upto(garbage, n);
        self.lemma_chosen_distinct(garbage, n);
        assert forall|k: int| 0 <= k < ids.len() implies self.held_upto(garbage, n).holds_back(#[trigger] ids[k]) by {
            assert(self.chosen(garbage, ids[k]));
        }
        self.held_upto(garbage, n).lemma_swept_count(ids);
    }
}

} // verus!
