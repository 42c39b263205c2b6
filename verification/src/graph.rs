use vstd::prelude::*;

verus! {

/// One slot of a registry as a collection pass sees it.
pub struct Node {
    /// Whether the slot holds a tracked object.
    pub linked: bool,
    /// The number of strong references to the object.
    pub count: usize,
    /// The slots that the object's value reported when it was traced.
    pub edges: Vec<usize>,
}

/// Whether slot `i` of `g` holds a tracked object.
pub open spec fn is_node(g: Seq<Node>, i: int) -> bool {
    0 <= i < g.len() && g[i].linked
}

/// Whether `x` is one of the slots in `s`.
pub open spec fn holds(s: Seq<usize>, x: int) -> bool {
    exists|k: int| 0 <= k < s.len() && s[k] == x
}

/// How often `j` occurs in `s`.
pub open spec fn occurrences(s: Seq<usize>, j: int) -> nat
    decreases s.len(),
{
    if s.len() == 0 {
        0
    } else {
        occurrences(s.drop_last(), j) + if s.last() == j { 1nat } else { 0nat }
    }
}

/// The number of references to `j` that the tracked objects in the slots
/// below `n` hold.
pub open spec fn incoming_upto(g: Seq<Node>, n: int, j: int) -> nat
    decreases n,
{
    if n <= 0 {
        0
    } else {
        incoming_upto(g, n - 1, j) + if g[n - 1].linked { occurrences(g[n - 1].edges@, j) } else { 0nat }
    }
}

/// The number of references to `j` that tracked objects hold.
pub open spec fn incoming(g: Seq<Node>, j: int) -> nat {
    incoming_upto(g, g.len() as int, j)
}

/// What is left of a count of `count` after `taken` references were
/// subtracted one by one, never going below zero.
pub open spec fn remaining(count: usize, taken: nat) -> nat {
    if count > taken { (count - taken) as nat } else { 0 }
}

/// The number of references to `j` that come from outside the tracked
/// objects: its count less the references that tracked objects hold.
pub open spec fn external(g: Seq<Node>, j: int) -> nat {
    if is_node(g, j) { remaining(g[j].count, incoming(g, j)) } else { 0 }
}

/// A root is a tracked object that something outside the tracked objects
/// refers to.
pub open spec fn is_root(g: Seq<Node>, j: int) -> bool {
    is_node(g, j) && g[j].count > incoming(g, j)
}

/// Whether the tracked object `i` refers to the tracked object `j`.
pub open spec fn has_edge(g: Seq<Node>, i: int, j: int) -> bool {
    is_node(g, i) && is_node(g, j) && holds(g[i].edges@, j)
}

/// Whether `p` leads from one tracked object to the next along references.
pub open spec fn is_walk(g: Seq<Node>, p: Seq<int>) -> bool {
    &&& p.len() >= 1
    &&& is_node(g, p[0])
    &&& forall|k: int| 0 <= k < p.len() - 1 ==> has_edge(g, #[trigger] p[k], p[k + 1])
}

/// Whether `p` is a walk that starts at a root.
pub open spec fn is_path(g: Seq<Node>, p: Seq<int>) -> bool {
    is_walk(g, p) && is_root(g, p[0])
}

/// A tracked object is live if references lead to it from a root.
pub open spec fn live(g: Seq<Node>, j: int) -> bool {
    exists|p: Seq<int>| is_path(g, p) && p.last() == j
}

/// A tracked object is unreachable if no references lead to it from a root:
/// reference counting alone would never free it.
pub open spec fn is_unreachable(g: Seq<Node>, j: int) -> bool {
    is_node(g, j) && !live(g, j)
}

/// A value that does not occur in `s` occurs zero times.
pub proof fn lemma_occurrences_absent(s: Seq<usize>, j: int)
    requires
        forall|k: int| 0 <= k < s.len() ==> s[k] != j,
    ensures
        occurrences(s, j) == 0,
    decreases s.len(),
{
    if s.len() > 0 {
        lemma_occurrences_absent(s.drop_last(), j);
    }
}

/// One more element adds one occurrence of itself and none of another value.
pub proof fn lemma_occurrences_step(s: Seq<usize>, k: int, j: int)
    requires
        0 <= k < s.len(),
    ensures
        occurrences(s.take(k + 1), j) == occurrences(s.take(k), j) + if s[k] == j { 1nat } else { 0nat },
{
    assert(s.take(k + 1).drop_last() =~= s.take(k));
}

/// What a live object refers to is live.
pub proof fn lemma_live_step(g: Seq<Node>, i: int, j: int)
    requires
        live(g, i),
        has_edge(g, i, j),
    ensures
        live(g, j),
{
    let p = choose|p: Seq<int>| is_path(g, p) && p.last() == i;
    let q = p.push(j);
    assert forall|k: int| 0 <= k < q.len() - 1 implies has_edge(g, #[trigger] q[k], q[k + 1]) by {
        if k < p.len() - 1 {
            assert(q[k] == p[k]);
            assert(q[k + 1] == p[k + 1]);
        }
    }
    assert(is_path(g, q) && q.last() == j);
}

/// A root is live.
pub proof fn lemma_root_is_live(g: Seq<Node>, j: int)
    requires
        is_root(g, j),
    ensures
        live(g, j),
{
    let p = seq![j];
    assert(is_path(g, p) && p.last() == j);
}

/// A set of objects that holds every root and, with an object, every object
/// it refers to, holds every live object.
pub proof fn lemma_closed_holds_live(g: Seq<Node>, marked: Seq<bool>, p: Seq<int>)
    requires
        marked.len() == g.len(),
        forall|j: int| is_root(g, j) ==> marked[j],
        forall|i: int, j: int| 0 <= i < g.len() && marked[i] && has_edge(g, i, j) ==> marked[j],
        is_path(g, p),
    ensures
        marked[p.last()],
    decreases p.len(),
{
    if p.len() > 1 {
        let q = p.drop_last();
        assert forall|k: int| 0 <= k < q.len() - 1 implies has_edge(g, #[trigger] q[k], q[k + 1]) by {
            assert(q[k] == p[k]);
            assert(q[k + 1] == p[k + 1]);
        }
        lemma_closed_holds_live(g, marked, q);
        assert(has_edge(g, p[p.len() - 2], p[p.len() - 1]));
        assert(q.last() == p[p.len() - 2]);
    }
}

/// What the collector has left of the count of `j` after it subtracted
/// `taken` references: nothing for a slot without a tracked object.
pub open spec fn settled(g: Seq<Node>, j: int, taken: nat) -> nat {
    if g[j].linked { remaining(g[j].count, taken) } else { 0 }
}

/// The number of entries of `s` that are not set.
pub open spec fn unmarked(s: Seq<bool>) -> nat
    decreases s.len(),
{
    if s.len() == 0 {
        0
    } else {
        unmarked(s.drop_last()) + if s.last() { 0nat } else { 1nat }
    }
}

/// Setting an entry leaves one unset entry less.
pub proof fn lemma_unmarked_update(s: Seq<bool>, t: int)
    requires
        0 <= t < s.len(),
        !s[t],
    ensures
        unmarked(s.update(t, true)) + 1 == unmarked(s),
    decreases s.len(),
{
    if t == s.len() - 1 {
        assert(s.update(t, true).drop_last() =~= s.drop_last());
    } else {
        assert(s.update(t, true).drop_last() =~= s.drop_last().update(t, true));
        lemma_unmarked_update(s.drop_last(), t);
    }
}

/// A live object is a tracked object.
pub proof fn lemma_live_is_node(g: Seq<Node>, j: int)
    requires
        live(g, j),
    ensures
        is_node(g, j),
{
    let p = choose|p: Seq<int>| is_path(g, p) && p.last() == j;
    if p.len() > 1 {
        assert(has_edge(g, p[p.len() - 2], p[p.len() - 1]));
    }
}

/// The first half of trial deletion: for every tracked object, its count
/// less one for every reference that a tracked object holds to it. What is
/// left counts the references from outside.
pub fn external_counts(g: &Vec<Node>) -> (ext: Vec<usize>)
    ensures
        ext.len() == g.len(),
        forall|j: int| 0 <= j < g.len() ==> ext[j] == external(g@, j),
{
    let n = g.len();
    let mut ext: Vec<usize> = Vec::new();
    let mut i: usize = 0;
    while i < n
        invariant
            i <= n,
            n == g.len(),
            ext.len() == i,
            forall|j: int| 0 <= j < i ==> ext[j] == settled(g@, j, 0),
        decreases n - i,
    {
        let start: usize = if g[i].linked { g[i].count } else { 0 };
        ext.push(start);
        i += 1;
    }
    let mut i: usize = 0;
    while i < n
        invariant
            i <= n,
            n == g.len(),
            ext.len() == n,
            forall|j: int| 0 <= j < n ==> ext[j] == settled(g@, j, incoming_upto(g@, i as int, j)),
        decreases n - i,
    {
        if g[i].linked {
            let m = g[i].edges.len();
            let mut k: usize = 0;
            while k < m
                invariant
                    i < n,
                    k <= m,
                    n == g.len(),
                    m == g[i as int].edges.len(),
                    ext.len() == n,
                    forall|j: int| 0 <= j < n ==> ext[j] == settled(
                        g@,
                        j,
                        incoming_upto(g@, i as int, j) + occurrences(g[i as int].edges@.take(k as int), j),
                    ),
                decreases m - k,
            {
                let t = g[i].edges[k];
                proof {
                    assert forall|j: int| 0 <= j < n implies occurrences(
                        g[i as int].edges@.take(k + 1),
                        j,
                    ) == occurrences(g[i as int].edges@.take(k as int), j) + if t == j { 1nat } else { 0nat } by {
                        lemma_occurrences_step(g[i as int].edges@, k as int, j);
                    }
                }
                if t < n && g[t].linked && ext[t] > 0 {
                    let less: usize = ext[t] - 1;
                    ext[t] = less;
                }
                k += 1;
            }
            proof {
                assert(g[i as int].edges@.take(m as int) =~= g[i as int].edges@);
            }
        }
        i += 1;
    }
    ext
}

/// The second half of trial deletion: from every object that is referred to
/// from outside, follow the references, and mark what is met.
pub fn mark_live(g: &Vec<Node>, ext: &Vec<usize>) -> (marked: Vec<bool>)
    requires
        ext.len() == g.len(),
        forall|j: int| 0 <= j < g.len() ==> ext[j] == external(g@, j),
    ensures
        marked.len() == g.len(),
        forall|j: int| 0 <= j < g.len() ==> marked[j] == live(g@, j),
{
    let n = g.len();
    let mut marked: Vec<bool> = Vec::new();
    let mut stack: Vec<usize> = Vec::new();
    let mut j: usize = 0;
    while j < n
        invariant
            j <= n,
            n == g.len(),
            n == ext.len(),
            marked.len() == j,
            forall|x: int| 0 <= x < g.len() ==> ext[x] == external(g@, x),
            forall|x: int| 0 <= x < j ==> marked[x] == is_root(g@, x),
            forall|s: int| 0 <= s < stack.len() ==> (#[trigger] stack[s]) < j && marked[stack[s] as int],
            stack@.no_duplicates(),
            forall|x: int| 0 <= x < j && marked[x] ==> holds(stack@, x),
        decreases n - j,
    {
        let root = ext[j] > 0;
        marked.push(root);
        if root {
            proof {
                assert forall|s: int| 0 <= s < stack.len() implies stack[s] != j by {}
            }
            let ghost roots = stack@;
            stack.push(j);
            proof {
                assert forall|x: int| 0 <= x < j + 1 && marked[x] implies holds(stack@, x) by {
                    if x < j {
                        assert(holds(roots, x));
                        let s = choose|s: int| 0 <= s < roots.len() && roots[s] == x;
                        assert(stack[s] == x);
                    } else {
                        assert(stack[stack.len() - 1] == x);
                    }
                }
            }
        }
        j += 1;
    }
    proof {
        assert forall|x: int| 0 <= x < n && marked[x] implies live(g@, x) by {
            lemma_root_is_live(g@, x);
        }
    }
    while stack.len() > 0
        invariant
            n == g.len(),
            marked.len() == n,
            forall|x: int| 0 <= x < n && marked[x] ==> live(g@, x),
            forall|x: int| 0 <= x < n && is_root(g@, x) ==> marked[x],
            forall|s: int| 0 <= s < stack.len() ==> (#[trigger] stack[s]) < n && marked[stack[s] as int],
            stack@.no_duplicates(),
            forall|x: int, y: int|
                0 <= x < n && marked[x] && !holds(stack@, x) && has_edge(g@, x, y) ==> marked[y],
        decreases unmarked(marked@) + stack.len(),
    {
        let ghost before = unmarked(marked@) + stack.len();
        let ghost old_stack = stack@;
        let i = stack.pop().unwrap();
        proof {
            assert(old_stack[old_stack.len() - 1] == i);
            assert(!holds(stack@, i as int)) by {
                if holds(stack@, i as int) {
                    let s = choose|s: int| 0 <= s < stack.len() && stack[s] == i;
                    assert(old_stack[s] == i);
                }
            }
            assert forall|x: int| 0 <= x < n && x != i && !holds(stack@, x) implies !holds(old_stack, x) by {
                if holds(old_stack, x) {
                    let s = choose|s: int| 0 <= s < old_stack.len() && old_stack[s] == x;
                    assert(stack[s] == x);
                }
            }
            lemma_live_is_node(g@, i as int);
        }
        let m = g[i].edges.len();
        let mut k: usize = 0;
        while k < m
            invariant
                n == g.len(),
                marked.len() == n,
                i < n,
                k <= m,
                m == g[i as int].edges.len(),
                marked[i as int],
                is_node(g@, i as int),
                !holds(stack@, i as int),
                forall|x: int| 0 <= x < n && marked[x] ==> live(g@, x),
                forall|x: int| 0 <= x < n && is_root(g@, x) ==> marked[x],
                forall|s: int| 0 <= s < stack.len() ==> (#[trigger] stack[s]) < n && marked[stack[s] as int],
                stack@.no_duplicates(),
                forall|x: int, y: int|
                    0 <= x < n && marked[x] && x != i && !holds(stack@, x) && has_edge(g@, x, y) ==> marked[y],
                forall|e: int|
                    0 <= e < k && is_node(g@, g[i as int].edges[e] as int) ==> marked[g[i as int].edges[e] as int],
                unmarked(marked@) + stack.len() + 1 == before,
            decreases m - k,
        {
            let t = g[i].edges[k];
            if t < n && g[t].linked && !marked[t] {
                proof {
                    lemma_unmarked_update(marked@, t as int);
                    assert(g[i as int].edges@[k as int] == t);
                    assert(has_edge(g@, i as int, t as int));
                    lemma_live_step(g@, i as int, t as int);
                    assert forall|s: int| 0 <= s < stack.len() implies stack[s] != t by {}
                }
                let ghost inner_stack = stack@;
                marked[t] = true;
                stack.push(t);
                proof {
                    assert forall|x: int| 0 <= x < n && holds(inner_stack, x) implies holds(stack@, x) by {
                        let s = choose|s: int| 0 <= s < inner_stack.len() && inner_stack[s] == x;
                        assert(stack[s] == x);
                    }
                    assert(stack[stack.len() - 1] == t);
                    assert(!holds(stack@, i as int)) by {
                        if holds(stack@, i as int) {
                            let s = choose|s: int| 0 <= s < stack.len() && stack[s] == i;
                            if s < inner_stack.len() {
                                assert(inner_stack[s] == i);
                            }
                        }
                    }
                }
            }
            k += 1;
        }
        proof {
            assert forall|x: int, y: int|
                0 <= x < n && marked[x] && !holds(stack@, x) && has_edge(g@, x, y) implies marked[y] by {
                if x == i {
                    let e = choose|e: int| 0 <= e < g[i as int].edges@.len() && g[i as int].edges@[e] == y;
                    assert(g[i as int].edges[e] as int == y);
                }
            }
        }
    }
    proof {
        assert forall|x: int| 0 <= x < n && live(g@, x) implies marked[x] by {
            let p = choose|p: Seq<int>| is_path(g@, p) && p.last() == x;
            assert forall|a: int, b: int| 0 <= a < n && marked[a] && has_edge(g@, a, b) implies marked[b] by {
                assert(!holds(stack@, a));
            }
            lemma_closed_holds_live(g@, marked@, p);
        }
    }
    marked
}

/// Trial deletion: finds the tracked objects that no references lead to from
/// outside the tracked objects. Only a cycle collection can free them.
pub fn find_unreachable(g: &Vec<Node>) -> (garbage: Vec<bool>)
    ensures
        garbage.len() == g.len(),
        forall|j: int| 0 <= j < g.len() ==> garbage[j] == is_unreachable(g@, j),
{
    let ext = external_counts(g);
    let marked = mark_live(g, &ext);
    let n = g.len();
    let mut garbage: Vec<bool> = Vec::new();
    let mut j: usize = 0;
    while j < n
        invariant
            j <= n,
            n == g.len(),
            marked.len() == n,
            garbage.len() == j,
            forall|x: int| 0 <= x < n ==> marked[x] == live(g@, x),
            forall|x: int| 0 <= x < j ==> garbage[x] == is_unreachable(g@, x),
        decreases n - j,
    {
        garbage.push(g[j].linked && !marked[j]);
        j += 1;
    }
    garbage
}

/// An object that references lead to from a root is live and so is never
/// found unreachable, whatever cycles it is part of.
pub proof fn lemma_reached_from_root_is_kept(g: Seq<Node>, walk: Seq<int>)
    requires
        is_walk(g, walk),
        is_root(g, walk[0]),
    ensures
        live(g, walk.last()),
        !is_unreachable(g, walk.last()),
{
    assert(is_path(g, walk));
}

/// Where every tracked object is referred to from outside, and so also where
/// nothing is tracked, no object is unreachable.
pub proof fn lemma_all_rooted_none_unreachable(g: Seq<Node>)
    requires
        forall|j: int| is_node(g, j) ==> is_root(g, j),
    ensures
        forall|j: int| !is_unreachable(g, j),
{
    assert forall|j: int| !is_unreachable(g, j) by {
        if is_node(g, j) {
            lemma_root_is_live(g, j);
        }
    }
}

/// An object that no tracked object below `n` refers to has no incoming
/// reference from them.
pub proof fn lemma_no_incoming(g: Seq<Node>, n: int, j: int)
    requires
        0 <= n <= g.len(),
        is_node(g, j),
        forall|i: int| 0 <= i < n ==> !has_edge(g, i, j),
    ensures
        incoming_upto(g, n, j) == 0,
    decreases n,
{
    if n > 0 {
        lemma_no_incoming(g, n - 1, j);
        if g[n - 1].linked {
            assert(!has_edge(g, n - 1, j));
            assert(!holds(g[n - 1].edges@, j));
            lemma_occurrences_absent(g[n - 1].edges@, j);
        }
    }
}

/// Among the tracked objects below `n`, one of lowest rank.
pub proof fn lemma_lowest_rank(g: Seq<Node>, rank: Seq<int>, n: int) -> (m: int)
    requires
        0 <= n <= g.len(),
        rank.len() == g.len(),
        exists|j: int| 0 <= j < n && is_node(g, j),
    ensures
        0 <= m < n,
        is_node(g, m),
        forall|j: int| 0 <= j < n && is_node(g, j) ==> rank[m] <= rank[j],
    decreases n,
{
    if exists|j: int| 0 <= j < n - 1 && is_node(g, j) {
        let lowest = lemma_lowest_rank(g, rank, n - 1);
        if is_node(g, n - 1) && rank[n - 1] < rank[lowest] {
            n - 1
        } else {
            lowest
        }
    } else {
        n - 1
    }
}

/// Reference counting alone frees everything that is not part of a cycle.
/// Take a registry in which every tracked object still has a reference
/// (one without would have been freed), no reference comes from outside the
/// tracked objects, and the references form no cycle: every reference leads
/// to an object of higher `rank`. Then nothing is tracked any more.
pub proof fn lemma_acyclic_without_roots_is_empty(g: Seq<Node>, rank: Seq<int>)
    requires
        rank.len() == g.len(),
        forall|i: int, j: int| has_edge(g, i, j) ==> rank[i] < rank[j],
        forall|j: int| is_node(g, j) ==> g[j].count >= 1,
        forall|j: int| !is_root(g, j),
    ensures
        forall|j: int| !is_node(g, j),
{
    if exists|j: int| 0 <= j < g.len() && is_node(g, j) {
        let m = lemma_lowest_rank(g, rank, g.len() as int);
        assert forall|i: int| 0 <= i < g.len() implies !has_edge(g, i, m) by {
            if has_edge(g, i, m) {
                assert(rank[i] < rank[m]);
                assert(rank[m] <= rank[i]);
            }
        }
        lemma_no_incoming(g, g.len() as int, m);
        assert(is_root(g, m));
    }
}

/// The number of references to `j` that the unreachable objects in the slots
/// below `n` hold.
pub open spec fn incoming_from_unreachable(g: Seq<Node>, n: int, j: int) -> nat
    decreases n,
{
    if n <= 0 {
        0
    } else {
        incoming_from_unreachable(g, n - 1, j) + if is_unreachable(g, n - 1) {
            occurrences(g[n - 1].edges@, j)
        } else {
            0nat
        }
    }
}

/// Whether `after` is the snapshot that follows a collection of `g`: the
/// unreachable objects are gone, and with them the references they held; the
/// other objects refer to what they referred to.
pub open spec fn follows_collection(g: Seq<Node>, after: Seq<Node>) -> bool {
    &&& after.len() == g.len()
    &&& forall|j: int|
        0 <= j < g.len() ==> {
            &&& (#[trigger] after[j]).linked == (g[j].linked && live(g, j))
            &&& after[j].edges@ == g[j].edges@
            &&& after[j].linked ==> after[j].count + incoming_from_unreachable(g, g.len() as int, j) == g[j].count
        }
}

/// The references to `j` are those that stay and those that the unreachable
/// objects held.
pub proof fn lemma_incoming_splits(g: Seq<Node>, after: Seq<Node>, n: int, j: int)
    requires
        follows_collection(g, after),
        0 <= n <= g.len(),
    ensures
        incoming_upto(g, n, j) == incoming_upto(after, n, j) + incoming_from_unreachable(g, n, j),
    decreases n,
{
    if n > 0 {
        lemma_incoming_splits(g, after, n - 1, j);
        assert(after[n - 1].linked == (g[n - 1].linked && live(g, n - 1)));
    }
}

/// A path to a live object is still a path after the collection.
pub proof fn lemma_path_survives(g: Seq<Node>, after: Seq<Node>, p: Seq<int>)
    requires
        follows_collection(g, after),
        is_path(g, p),
    ensures
        is_path(after, p),
    decreases p.len(),
{
    let root = p[0];
    lemma_root_is_live(g, root);
    lemma_incoming_splits(g, after, g.len() as int, root);
    assert(after[root].linked);
    assert(is_root(after, root));
    if p.len() > 1 {
        let q = p.drop_last();
        assert forall|k: int| 0 <= k < q.len() - 1 implies has_edge(g, #[trigger] q[k], q[k + 1]) by {
            assert(q[k] == p[k]);
            assert(q[k + 1] == p[k + 1]);
        }
        assert(is_path(g, q));
        lemma_path_survives(g, after, q);
        let a = p[p.len() - 2];
        let b = p[p.len() - 1];
        assert(has_edge(g, a, b));
        assert(q.last() == a);
        assert(live(g, a));
        assert(live(g, b)) by {
            assert(is_path(g, p) && p.last() == b);
        }
        assert(after[a].linked && after[b].linked);
        assert(has_edge(after, a, b));
        assert forall|k: int| 0 <= k < p.len() - 1 implies has_edge(after, #[trigger] p[k], p[k + 1]) by {
            if k < p.len() - 2 {
                assert(q[k] == p[k]);
                assert(q[k + 1] == p[k + 1]);
                assert(has_edge(after, q[k], q[k + 1]));
            }
        }
    }
}

/// Collecting is idempotent. Once a collection has reclaimed the unreachable
/// objects, and the references that they held are given up, no object is
/// unreachable: a second collection finds nothing.
pub proof fn lemma_collection_leaves_nothing_unreachable(g: Seq<Node>, after: Seq<Node>)
    requires
        follows_collection(g, after),
    ensures
        forall|j: int| !is_unreachable(after, j),
{
    assert forall|j: int| !is_unreachable(after, j) by {
        if is_node(after, j) {
            assert(after[j].linked);
            assert(live(g, j));
            let p = choose|p: Seq<int>| is_path(g, p) && p.last() == j;
            lemma_path_survives(g, after, p);
            assert(is_path(after, p) && p.last() == j);
        }
    }
}

} // verus!
