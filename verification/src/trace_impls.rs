use vstd::prelude::*;
use crate::trace::{join_edges, lemma_traced_twice, traced, type_tracked_is, Trace, Tracer};

verus! {

// Types that hold no reference to a tracked object.

impl Trace for bool {
    open spec fn edges(&self) -> Option<Seq<usize>> {
        Some(Seq::empty())
    }

    fn trace(&self, tracer: &mut Tracer) {
    }

    fn is_type_tracked() -> (answer: bool)
        ensures
            !answer,
    {
        false
    }
}

impl Trace for char {
    open spec fn edges(&self) -> Option<Seq<usize>> {
        Some(Seq::empty())
    }

    fn trace(&self, tracer: &mut Tracer) {
    }

    fn is_type_tracked() -> (answer: bool)
        ensures
            !answer,
    {
        false
    }
}

impl Trace for i8 {
    open spec fn edges(&self) -> Option<Seq<usize>> {
        Some(Seq::empty())
    }

    fn trace(&self, tracer: &mut Tracer) {
    }

    fn is_type_tracked() -> (answer: bool)
        ensures
            !answer,
    {
        false
    }
}

impl Trace for i16 {
    open spec fn edges(&self) -> Option<Seq<usize>> {
        Some(Seq::empty())
    }

    fn trace(&self, tracer: &mut Tracer) {
    }

    fn is_type_tracked() -> (answer: bool)
        ensures
            !answer,
    {
        false
    }
}

impl Trace for i32 {
    open spec fn edges(&self) -> Option<Seq<usize>> {
        Some(Seq::empty())
    }

    fn trace(&self, tracer: &mut Tracer) {
    }

    fn is_type_tracked() -> (answer: bool)
        ensures
            !answer,
    {
        false
    }
}

impl Trace for i64 {
    open spec fn edges(&self) -> Option<Seq<usize>> {
        Some(Seq::empty())
    }

    fn trace(&self, tracer: &mut Tracer) {
    }

    fn is_type_tracked() -> (answer: bool)
        ensures
            !answer,
    {
        false
    }
}

impl Trace for isize {
    open spec fn edges(&self) -> Option<Seq<usize>> {
        Some(Seq::empty())
    }

    fn trace(&self, tracer: &mut Tracer) {
    }

    fn is_type_tracked() -> (answer: bool)
        ensures
            !answer,
    {
        false
    }
}

impl Trace for u8 {
    open spec fn edges(&self) -> Option<Seq<usize>> {
        Some(Seq::empty())
    }

    fn trace(&self, tracer: &mut Tracer) {
    }

    fn is_type_tracked() -> (answer: bool)
        ensures
            !answer,
    {
        false
    }
}

impl Trace for u16 {
    open spec fn edges(&self) -> Option<Seq<usize>> {
        Some(Seq::empty())
    }

    fn trace(&self, tracer: &mut Tracer) {
    }

    fn is_type_tracked() -> (answer: bool)
        ensures
            !answer,
    {
        false
    }
}

impl Trace for u32 {
    open spec fn edges(&self) -> Option<Seq<usize>> {
        Some(Seq::empty())
    }

    fn trace(&self, tracer: &mut Tracer) {
    }

    fn is_type_tracked() -> (answer: bool)
        ensures
            !answer,
    {
        false
    }
}

impl Trace for u64 {
    open spec fn edges(&self) -> Option<Seq<usize>> {
        Some(Seq::empty())
    }

    fn trace(&self, tracer: &mut Tracer) {
    }

    fn is_type_tracked() -> (answer: bool)
        ensures
            !answer,
    {
        false
    }
}

impl Trace for usize {
    open spec fn edges(&self) -> Option<Seq<usize>> {
        Some(Seq::empty())
    }

    fn trace(&self, tracer: &mut Tracer) {
    }

    fn is_type_tracked() -> (answer: bool)
        ensures
            !answer,
    {
        false
    }
}

impl Trace for () {
    open spec fn edges(&self) -> Option<Seq<usize>> {
        Some(Seq::empty())
    }

    fn trace(&self, tracer: &mut Tracer) {
    }

    fn is_type_tracked() -> (answer: bool)
        ensures
            !answer,
    {
        false
    }
}

impl Trace for String {
    open spec fn edges(&self) -> Option<Seq<usize>> {
        Some(Seq::empty())
    }

    fn trace(&self, tracer: &mut Tracer) {
    }

    fn is_type_tracked() -> (answer: bool)
        ensures
            !answer,
    {
        false
    }
}

impl Trace for &'static str {
    open spec fn edges(&self) -> Option<Seq<usize>> {
        Some(Seq::empty())
    }

    fn trace(&self, tracer: &mut Tracer) {
    }

    fn is_type_tracked() -> (answer: bool)
        ensures
            !answer,
    {
        false
    }
}

impl<T> Trace for std::rc::Rc<T> {
    open spec fn edges(&self) -> Option<Seq<usize>> {
        Some(Seq::empty())
    }

    fn trace(&self, tracer: &mut Tracer) {
    }

    fn is_type_tracked() -> (answer: bool)
        ensures
            !answer,
    {
        false
    }
}

impl<T> Trace for std::sync::Arc<T> {
    open spec fn edges(&self) -> Option<Seq<usize>> {
        Some(Seq::empty())
    }

    fn trace(&self, tracer: &mut Tracer) {
    }

    fn is_type_tracked() -> (answer: bool)
        ensures
            !answer,
    {
        false
    }
}

impl<T> Trace for core::marker::PhantomData<T> {
    open spec fn edges(&self) -> Option<Seq<usize>> {
        Some(Seq::empty())
    }

    fn trace(&self, tracer: &mut Tracer) {
    }

    fn is_type_tracked() -> (answer: bool)
        ensures
            !answer,
    {
        false
    }
}

// Tuples refer to what their fields refer to, in order.

impl<A: Trace> Trace for (A,) {
    open spec fn edges(&self) -> Option<Seq<usize>> {
        self.0.edges()
    }

    fn trace(&self, tracer: &mut Tracer) {
        self.0.trace(tracer);
    }

    /// Tracked if one of the fields is.
    fn is_type_tracked() -> (answer: bool)
        ensures
            type_tracked_is::<A>(answer),
    {
        A::is_type_tracked()
    }
}

impl<A: Trace, B: Trace> Trace for (A, B,) {
    open spec fn edges(&self) -> Option<Seq<usize>> {
        let e = self.0.edges();
        let e = join_edges(e, self.1.edges());
        e
    }

    fn trace(&self, tracer: &mut Tracer) {
        let ghost before = tracer@;
        self.0.trace(tracer);
        let ghost e = self.0.edges();
        let ghost mid = tracer@;
        self.1.trace(tracer);
        proof {
            lemma_traced_twice(before, e, mid, self.1.edges(), tracer@);
        }
    }

    /// Tracked if one of the fields is.
    fn is_type_tracked() -> (answer: bool)
        ensures
            exists|a: bool, b: bool|
                type_tracked_is::<A>(a)
                    && type_tracked_is::<B>(b)
                    && answer == (a || b),
    {
        let a = A::is_type_tracked();
        let b = B::is_type_tracked();
        proof {
            assert(type_tracked_is::<A>(a));
            assert(type_tracked_is::<B>(b));
        }
        a || b
    }
}

impl<A: Trace, B: Trace, C: Trace> Trace for (A, B, C,) {
    open spec fn edges(&self) -> Option<Seq<usize>> {
        let e = self.0.edges();
        let e = join_edges(e, self.1.edges());
        let e = join_edges(e, self.2.edges());
        e
    }

    fn trace(&self, tracer: &mut Tracer) {
        let ghost before = tracer@;
        self.0.trace(tracer);
        let ghost e = self.0.edges();
        let ghost mid = tracer@;
        self.1.trace(tracer);
        proof {
            lemma_traced_twice(before, e, mid, self.1.edges(), tracer@);
        }
        let ghost e = join_edges(e, self.1.edges());
        let ghost mid = tracer@;
        self.2.trace(tracer);
        proof {
            lemma_traced_twice(before, e, mid, self.2.edges(), tracer@);
        }
    }

    /// Tracked if one of the fields is.
    fn is_type_tracked() -> (answer: bool)
        ensures
            exists|a: bool, b: bool, c: bool|
                type_tracked_is::<A>(a)
                    && type_tracked_is::<B>(b)
                    && type_tracked_is::<C>(c)
                    && answer == (a || b || c),
    {
        let a = A::is_type_tracked();
        let b = B::is_type_tracked();
        let c = C::is_type_tracked();
        proof {
            assert(type_tracked_is::<A>(a));
            assert(type_tracked_is::<B>(b));
            assert(type_tracked_is::<C>(c));
        }
        a || b || c
    }
}

impl<A: Trace, B: Trace, C: Trace, D: Trace> Trace for (A, B, C, D,) {
    open spec fn edges(&self) -> Option<Seq<usize>> {
        let e = self.0.edges();
        let e = join_edges(e, self.1.edges());
        let e = join_edges(e, self.2.edges());
        let e = join_edges(e, self.3.edges());
        e
    }

    fn trace(&self, tracer: &mut Tracer) {
        let ghost before = tracer@;
        self.0.trace(tracer);
        let ghost e = self.0.edges();
        let ghost mid = tracer@;
        self.1.trace(tracer);
        proof {
            lemma_traced_twice(before, e, mid, self.1.edges(), tracer@);
        }
        let ghost e = join_edges(e, self.1.edges());
        let ghost mid = tracer@;
        self.2.trace(tracer);
        proof {
            lemma_traced_twice(before, e, mid, self.2.edges(), tracer@);
        }
        let ghost e = join_edges(e, self.2.edges());
        let ghost mid = tracer@;
        self.3.trace(tracer);
        proof {
            lemma_traced_twice(before, e, mid, self.3.edges(), tracer@);
        }
    }

    /// Tracked if one of the fields is.
    fn is_type_tracked() -> (answer: bool)
        ensures
            exists|a: bool, b: bool, c: bool, d: bool|
                type_tracked_is::<A>(a)
                    && type_tracked_is::<B>(b)
                    && type_tracked_is::<C>(c)
                    && type_tracked_is::<D>(d)
                    && answer == (a || b || c || d),
    {
        let a = A::is_type_tracked();
        let b = B::is_type_tracked();
        let c = C::is_type_tracked();
        let d = D::is_type_tracked();
        proof {
            assert(type_tracked_is::<A>(a));
            assert(type_tracked_is::<B>(b));
            assert(type_tracked_is::<C>(c));
            assert(type_tracked_is::<D>(d));
        }
        a || b || c || d
    }
}

impl<A: Trace, B: Trace, C: Trace, D: Trace, E: Trace> Trace for (A, B, C, D, E,) {
    open spec fn edges(&self) -> Option<Seq<usize>> {
        let e = self.0.edges();
        let e = join_edges(e, self.1.edges());
        let e = join_edges(e, self.2.edges());
        let e = join_edges(e, self.3.edges());
        let e = join_edges(e, self.4.edges());
        e
    }

    fn trace(&self, tracer: &mut Tracer) {
        let ghost before = tracer@;
        self.0.trace(tracer);
        let ghost e = self.0.edges();
        let ghost mid = tracer@;
        self.1.trace(tracer);
        proof {
            lemma_traced_twice(before, e, mid, self.1.edges(), tracer@);
        }
        let ghost e = join_edges(e, self.1.edges());
        let ghost mid = tracer@;
        self.2.trace(tracer);
        proof {
            lemma_traced_twice(before, e, mid, self.2.edges(), tracer@);
        }
        let ghost e = join_edges(e, self.2.edges());
        let ghost mid = tracer@;
        self.3.trace(tracer);
        proof {
            lemma_traced_twice(before, e, mid, self.3.edges(), tracer@);
        }
        let ghost e = join_edges(e, self.3.edges());
        let ghost mid = tracer@;
        self.4.trace(tracer);
        proof {
            lemma_traced_twice(before, e, mid, self.4.edges(), tracer@);
        }
    }

    /// Tracked if one of the fields is.
    fn is_type_tracked() -> (answer: bool)
        ensures
            exists|a: bool, b: bool, c: bool, d: bool, e: bool|
                type_tracked_is::<A>(a)
                    && type_tracked_is::<B>(b)
                    && type_tracked_is::<C>(c)
                    && type_tracked_is::<D>(d)
                    && type_tracked_is::<E>(e)
                    && answer == (a || b || c || d || e),
    {
        let a = A::is_type_tracked();
        let b = B::is_type_tracked();
        let c = C::is_type_tracked();
        let d = D::is_type_tracked();
        let e = E::is_type_tracked();
        proof {
            assert(type_tracked_is::<A>(a));
            assert(type_tracked_is::<B>(b));
            assert(type_tracked_is::<C>(c));
            assert(type_tracked_is::<D>(d));
            assert(type_tracked_is::<E>(e));
        }
        a || b || c || d || e
    }
}

impl<A: Trace, B: Trace, C: Trace, D: Trace, E: Trace, F: Trace> Trace for (A, B, C, D, E, F,) {
    open spec fn edges(&self) -> Option<Seq<usize>> {
        let e = self.0.edges();
        let e = join_edges(e, self.1.edges());
        let e = join_edges(e, self.2.edges());
        let e = join_edges(e, self.3.edges());
        let e = join_edges(e, self.4.edges());
        let e = join_edges(e, self.5.edges());
        e
    }

    fn trace(&self, tracer: &mut Tracer) {
        let ghost before = tracer@;
        self.0.trace(tracer);
        let ghost e = self.0.edges();
        let ghost mid = tracer@;
        self.1.trace(tracer);
        proof {
            lemma_traced_twice(before, e, mid, self.1.edges(), tracer@);
        }
        let ghost e = join_edges(e, self.1.edges());
        let ghost mid = tracer@;
        self.2.trace(tracer);
        proof {
            lemma_traced_twice(before, e, mid, self.2.edges(), tracer@);
        }
        let ghost e = join_edges(e, self.2.edges());
        let ghost mid = tracer@;
        self.3.trace(tracer);
        proof {
            lemma_traced_twice(before, e, mid, self.3.edges(), tracer@);
        }
        let ghost e = join_edges(e, self.3.edges());
        let ghost mid = tracer@;
        self.4.trace(tracer);
        proof {
            lemma_traced_twice(before, e, mid, self.4.edges(), tracer@);
        }
        let ghost e = join_edges(e, self.4.edges());
        let ghost mid = tracer@;
        self.5.trace(tracer);
        proof {
            lemma_traced_twice(before, e, mid, self.5.edges(), tracer@);
        }
    }

    /// Tracked if one of the fields is.
    fn is_type_tracked() -> (answer: bool)
        ensures
            exists|a: bool, b: bool, c: bool, d: bool, e: bool, f: bool|
                type_tracked_is::<A>(a)
                    && type_tracked_is::<B>(b)
                    && type_tracked_is::<C>(c)
                    && type_tracked_is::<D>(d)
                    && type_tracked_is::<E>(e)
                    && type_tracked_is::<F>(f)
                    && answer == (a || b || c || d || e || f),
    {
        let a = A::is_type_tracked();
        let b = B::is_type_tracked();
        let c = C::is_type_tracked();
        let d = D::is_type_tracked();
        let e = E::is_type_tracked();
        let f = F::is_type_tracked();
        proof {
            assert(type_tracked_is::<A>(a));
            assert(type_tracked_is::<B>(b));
            assert(type_tracked_is::<C>(c));
            assert(type_tracked_is::<D>(d));
            assert(type_tracked_is::<E>(e));
            assert(type_tracked_is::<F>(f));
        }
        a || b || c || d || e || f
    }
}

impl<A: Trace, B: Trace, C: Trace, D: Trace, E: Trace, F: Trace, G: Trace> Trace for (A, B, C, D, E, F, G,) {
    open spec fn edges(&self) -> Option<Seq<usize>> {
        let e = self.0.edges();
        let e = join_edges(e, self.1.edges());
        let e = join_edges(e, self.2.edges());
        let e = join_edges(e, self.3.edges());
        let e = join_edges(e, self.4.edges());
        let e = join_edges(e, self.5.edges());
        let e = join_edges(e, self.6.edges());
        e
    }

    fn trace(&self, tracer: &mut Tracer) {
        let ghost before = tracer@;
        self.0.trace(tracer);
        let ghost e = self.0.edges();
        let ghost mid = tracer@;
        self.1.trace(tracer);
        proof {
            lemma_traced_twice(before, e, mid, self.1.edges(), tracer@);
        }
        let ghost e = join_edges(e, self.1.edges());
        let ghost mid = tracer@;
        self.2.trace(tracer);
        proof {
            lemma_traced_twice(before, e, mid, self.2.edges(), tracer@);
        }
        let ghost e = join_edges(e, self.2.edges());
        let ghost mid = tracer@;
        self.3.trace(tracer);
        proof {
            lemma_traced_twice(before, e, mid, self.3.edges(), tracer@);
        }
        let ghost e = join_edges(e, self.3.edges());
        let ghost mid = tracer@;
        self.4.trace(tracer);
        proof {
            lemma_traced_twice(before, e, mid, self.4.edges(), tracer@);
        }
        let ghost e = join_edges(e, self.4.edges());
        let ghost mid = tracer@;
        self.5.trace(tracer);
        proof {
            lemma_traced_twice(before, e, mid, self.5.edges(), tracer@);
        }
        let ghost e = join_edges(e, self.5.edges());
        let ghost mid = tracer@;
        self.6.trace(tracer);
        proof {
            lemma_traced_twice(before, e, mid, self.6.edges(), tracer@);
        }
    }

    /// Tracked if one of the fields is.
    fn is_type_tracked() -> (answer: bool)
        ensures
            exists|a: bool, b: bool, c: bool, d: bool, e: bool, f: bool, g: bool|
                type_tracked_is::<A>(a)
                    && type_tracked_is::<B>(b)
                    && type_tracked_is::<C>(c)
                    && type_tracked_is::<D>(d)
                    && type_tracked_is::<E>(e)
                    && type_tracked_is::<F>(f)
                    && type_tracked_is::<G>(g)
                    && answer == (a || b || c || d || e || f || g),
    {
        let a = A::is_type_tracked();
        let b = B::is_type_tracked();
        let c = C::is_type_tracked();
        let d = D::is_type_tracked();
        let e = E::is_type_tracked();
        let f = F::is_type_tracked();
        let g = G::is_type_tracked();
        proof {
            assert(type_tracked_is::<A>(a));
            assert(type_tracked_is::<B>(b));
            assert(type_tracked_is::<C>(c));
            assert(type_tracked_is::<D>(d));
            assert(type_tracked_is::<E>(e));
            assert(type_tracked_is::<F>(f));
            assert(type_tracked_is::<G>(g));
        }
        a || b || c || d || e || f || g
    }
}

// Containers refer to what their items refer to.

impl<T: Trace> Trace for Option<T> {
    open spec fn edges(&self) -> Option<Seq<usize>> {
        match self {
            Some(t) => t.edges(),
            None => Some(Seq::empty()),
        }
    }

    fn trace(&self, tracer: &mut Tracer) {
        if let Some(t) = self {
            t.trace(tracer);
        }
    }

    fn is_type_tracked() -> (answer: bool)
        ensures
            type_tracked_is::<T>(answer),
    {
        T::is_type_tracked()
    }
}

impl<T: Trace, U: Trace> Trace for Result<T, U> {
    open spec fn edges(&self) -> Option<Seq<usize>> {
        match self {
            Ok(t) => t.edges(),
            Err(u) => u.edges(),
        }
    }

    fn trace(&self, tracer: &mut Tracer) {
        match self {
            Ok(t) => t.trace(tracer),
            Err(u) => u.trace(tracer),
        }
    }

    fn is_type_tracked() -> (answer: bool)
        ensures
            exists|a: bool, b: bool| type_tracked_is::<T>(a) && type_tracked_is::<U>(b) && answer == (a || b),
    {
        let a = T::is_type_tracked();
        let b = U::is_type_tracked();
        proof {
            assert(type_tracked_is::<T>(a));
            assert(type_tracked_is::<U>(b));
        }
        a || b
    }
}

impl<T: Trace> Trace for Box<T> {
    open spec fn edges(&self) -> Option<Seq<usize>> {
        (**self).edges()
    }

    fn trace(&self, tracer: &mut Tracer) {
        (**self).trace(tracer);
    }

    fn is_type_tracked() -> (answer: bool)
        ensures
            type_tracked_is::<T>(answer),
    {
        T::is_type_tracked()
    }
}

impl Trace for Box<dyn Trace> {
    open spec fn edges(&self) -> Option<Seq<usize>> {
        (**self).edges()
    }

    fn trace(&self, tracer: &mut Tracer) {
        (**self).trace(tracer);
    }

    /// A trait object can hold anything: it counts as tracked.
    fn is_type_tracked() -> (answer: bool)
        ensures
            answer,
    {
        true
    }
}

/// What the items of `s` refer to, one after the other: known only if it is
/// known of every item.
pub open spec fn seq_edges<T: Trace>(s: Seq<T>) -> Option<Seq<usize>>
    decreases s.len(),
{
    if s.len() == 0 {
        Some(Seq::empty())
    } else {
        join_edges(seq_edges(s.drop_last()), s.last().edges())
    }
}

/// Tracing one more item of `s` reports what the items up to it refer to.
pub proof fn lemma_seq_edges_step<T: Trace>(s: Seq<T>, i: int, before: Seq<usize>, mid: Seq<usize>, after: Seq<usize>)
    requires
        0 <= i < s.len(),
        traced(before, seq_edges(s.take(i)), mid),
        traced(mid, s[i].edges(), after),
    ensures
        traced(before, seq_edges(s.take(i + 1)), after),
{
    assert(s.take(i + 1).drop_last() =~= s.take(i));
    lemma_traced_twice(before, seq_edges(s.take(i)), mid, s[i].edges(), after);
}

impl<T: Trace> Trace for Vec<T> {
    open spec fn edges(&self) -> Option<Seq<usize>> {
        seq_edges(self@)
    }

    fn trace(&self, tracer: &mut Tracer) {
        let ghost before = tracer@;
        let mut i: usize = 0;
        while i < self.len()
            invariant
                i <= self.len(),
                traced(before, seq_edges(self@.take(i as int)), tracer@),
            decreases self.len() - i,
        {
            let ghost mid = tracer@;
            self[i].trace(tracer);
            proof {
                lemma_seq_edges_step(self@, i as int, before, mid, tracer@);
            }
            i += 1;
        }
        proof {
            assert(self@.take(self.len() as int) =~= self@);
        }
    }

    fn is_type_tracked() -> (answer: bool)
        ensures
            type_tracked_is::<T>(answer),
    {
        T::is_type_tracked()
    }
}

impl<T: Trace> Trace for std::collections::VecDeque<T> {
    open spec fn edges(&self) -> Option<Seq<usize>> {
        seq_edges(self@)
    }

    fn trace(&self, tracer: &mut Tracer) {
        let ghost before = tracer@;
        let mut i: usize = 0;
        while i < self.len()
            invariant
                i <= self.len(),
                traced(before, seq_edges(self@.take(i as int)), tracer@),
            decreases self.len() - i,
        {
            let ghost mid = tracer@;
            self[i].trace(tracer);
            proof {
                lemma_seq_edges_step(self@, i as int, before, mid, tracer@);
            }
            i += 1;
        }
        proof {
            assert(self@.take(self.len() as int) =~= self@);
        }
    }

    fn is_type_tracked() -> (answer: bool)
        ensures
            type_tracked_is::<T>(answer),
    {
        T::is_type_tracked()
    }
}

impl<T: ToOwned + ?Sized> Trace for std::borrow::Cow<'static, T> where T::Owned: Trace {
    open spec fn edges(&self) -> Option<Seq<usize>> {
        match self {
            std::borrow::Cow::Owned(v) => v.edges(),
            std::borrow::Cow::Borrowed(_) => Some(Seq::empty()),
        }
    }

    fn trace(&self, tracer: &mut Tracer) {
        if let std::borrow::Cow::Owned(v) = self {
            v.trace(tracer);
        }
    }

    fn is_type_tracked() -> (answer: bool)
        ensures
            type_tracked_is::<T::Owned>(answer),
    {
        <T::Owned as Trace>::is_type_tracked()
    }
}

/// `std::path::PathBuf`: an opaque type to the verifier.
#[verifier::external_type_specification]
#[verifier::external_body]
pub struct ExPathBuf(std::path::PathBuf);

impl Trace for std::path::PathBuf {
    open spec fn edges(&self) -> Option<Seq<usize>> {
        Some(Seq::empty())
    }

    fn trace(&self, tracer: &mut Tracer) {
    }

    fn is_type_tracked() -> (answer: bool)
        ensures
            !answer,
    {
        false
    }
}

// Maps hand their entries out in an order of their own. What a map refers to
// is stated of the entries that it hands out, not by `edges`.

/// Whether some entry of `entries` has the key `key`.
pub open spec fn has_key<K, V>(entries: Seq<(&K, &V)>, key: K) -> bool {
    exists|i: int| 0 <= i < entries.len() && *(#[trigger] entries[i]).0 == key
}

/// Whether `entries` are the entries of `map`, each of them once.
pub open spec fn lists_map<K, V>(map: Map<K, V>, entries: Seq<(&K, &V)>) -> bool {
    &&& forall|i: int|
        0 <= i < entries.len() ==> map.contains_key(*(#[trigger] entries[i]).0) && map[*entries[i].0]
            == *entries[i].1
    &&& forall|i: int, j: int|
        0 <= i < j < entries.len() ==> *(#[trigger] entries[i]).0 != *(#[trigger] entries[j]).0
    &&& forall|key: K| #[trigger] map.contains_key(key) ==> has_key(entries, key)
}

/// What a walk of a B-tree map hands out, where the keys keep to the order
/// that the map relies on: the entries of the map, each once, by rising key.
pub open spec fn btree_map_walk<K, V>(map: &std::collections::BTreeMap<K, V>, entries: Seq<(&K, &V)>) -> bool {
    vstd::std_specs::btree::key_obeys_cmp_spec::<K>() ==> {
        &&& lists_map(map@, entries)
        &&& vstd::std_specs::btree::increasing_seq(entries.map_values(|entry: (&K, &V)| *entry.0))
    }
}

/// What a walk of a hash map hands out, where the keys hash as the map
/// relies on: the entries of the map, each once, in no stated order.
pub open spec fn hash_map_walk<K, V>(map: &std::collections::HashMap<K, V>, entries: Seq<(&K, &V)>) -> bool {
    vstd::std_specs::hash::obeys_key_model::<K>() && vstd::std_specs::hash::builds_valid_hashers::<
        std::collections::hash_map::RandomState,
    >() ==> lists_map(map@, entries)
}

/// `Vec::from_iter` on a hash map: the entries that `HashMap::iter` visits,
/// which are all entries of the map, each once, in arbitrary order.
#[verifier::external_body]
fn hash_map_entries<'a, K, V>(map: &'a std::collections::HashMap<K, V>) -> (entries: Vec<(&'a K, &'a V)>)
    ensures
        hash_map_walk(map, entries@),
{
    Vec::from_iter(map)
}

/// `Vec::from_iter` on a B-tree map: the entries that `BTreeMap::iter`
/// visits, which are all entries of the map, each once, sorted by key.
#[verifier::external_body]
fn btree_map_entries<'a, K, V>(map: &'a std::collections::BTreeMap<K, V>) -> (entries: Vec<(&'a K, &'a V)>)
    ensures
        btree_map_walk(map, entries@),
{
    Vec::from_iter(map)
}

/// What the keys and values of `entries` refer to, entry by entry, the key
/// before its value: known only if it is known of every key and value.
pub open spec fn entries_edges<K: Trace, V: Trace>(entries: Seq<(&K, &V)>) -> Option<Seq<usize>>
    decreases entries.len(),
{
    if entries.len() == 0 {
        Some(Seq::empty())
    } else {
        join_edges(
            join_edges(entries_edges(entries.drop_last()), entries.last().0.edges()),
            entries.last().1.edges(),
        )
    }
}

/// Traces the entries of a map as the map handed them out: every key and
/// value, in the order of `entries`.
pub fn trace_entries<K: Trace, V: Trace>(entries: &Vec<(&K, &V)>, tracer: &mut Tracer)
    ensures
        traced(old(tracer)@, entries_edges(entries@), final(tracer)@),
{
    let ghost before = tracer@;
    let mut i: usize = 0;
    while i < entries.len()
        invariant
            i <= entries.len(),
            traced(before, entries_edges(entries@.take(i as int)), tracer@),
        decreases entries.len() - i,
    {
        let ghost start = tracer@;
        entries[i].0.trace(tracer);
        let ghost mid = tracer@;
        entries[i].1.trace(tracer);
        proof {
            assert(entries@.take(i + 1).drop_last() =~= entries@.take(i as int));
            let done = entries_edges(entries@.take(i as int));
            let key = entries@[i as int].0.edges();
            let value = entries@[i as int].1.edges();
            lemma_traced_twice(before, done, start, key, mid);
            lemma_traced_twice(before, join_edges(done, key), mid, value, tracer@);
        }
        i += 1;
    }
    proof {
        assert(entries@.take(entries.len() as int) =~= entries@);
    }
}

impl<K: Trace, V: Trace> Trace for std::collections::BTreeMap<K, V> {
    /// Reports what the keys and values refer to, entry by entry, by rising
    /// key.
    fn trace(&self, tracer: &mut Tracer)
        ensures
            exists|entries: Seq<(&K, &V)>|
                btree_map_walk(self, entries) && traced(old(tracer)@, entries_edges(entries), final(tracer)@),
    {
        let entries = btree_map_entries(self);
        trace_entries(&entries, tracer);
        assert(btree_map_walk(self, entries@) && traced(old(tracer)@, entries_edges(entries@), tracer@));
    }

    fn is_type_tracked() -> (answer: bool)
        ensures
            exists|a: bool, b: bool| type_tracked_is::<K>(a) && type_tracked_is::<V>(b) && answer == (a || b),
    {
        let a = K::is_type_tracked();
        let b = V::is_type_tracked();
        proof {
            assert(type_tracked_is::<K>(a));
            assert(type_tracked_is::<V>(b));
        }
        a || b
    }
}

impl<K: Eq + core::hash::Hash + Trace, V: Trace> Trace for std::collections::HashMap<K, V> {
    /// Reports what the keys and values refer to, entry by entry, in the
    /// order in which the map hands its entries out.
    fn trace(&self, tracer: &mut Tracer)
        ensures
            exists|entries: Seq<(&K, &V)>|
                hash_map_walk(self, entries) && traced(old(tracer)@, entries_edges(entries), final(tracer)@),
    {
        let entries = hash_map_entries(self);
        trace_entries(&entries, tracer);
        assert(hash_map_walk(self, entries@) && traced(old(tracer)@, entries_edges(entries@), tracer@));
    }

    fn is_type_tracked() -> (answer: bool)
        ensures
            exists|a: bool, b: bool| type_tracked_is::<K>(a) && type_tracked_is::<V>(b) && answer == (a || b),
    {
        let a = K::is_type_tracked();
        let b = V::is_type_tracked();
        proof {
            assert(type_tracked_is::<K>(a));
            assert(type_tracked_is::<V>(b));
        }
        a || b
    }
}

/// A pair of two types that are never tracked is never tracked.
pub proof fn lemma_pair_of_leaves_is_untracked<A: Trace, B: Trace>(answer: bool)
    requires
        forall|a: bool| type_tracked_is::<A>(a) ==> !a,
        forall|b: bool| type_tracked_is::<B>(b) ==> !b,
        type_tracked_is::<(A, B)>(answer),
    ensures
        !answer,
{
}

/// A container is tracked if its items can hold a trait object, which can
/// hold anything.
pub proof fn lemma_container_of_dynamic_is_tracked(answer: bool)
    requires
        type_tracked_is::<Vec<core::cell::RefCell<Box<dyn Trace>>>>(answer),
    ensures
        answer,
{
}

} // verus!
