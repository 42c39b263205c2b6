use vstd::prelude::*;

verus! {

/// The visitor handed to `Trace::trace`.
///
/// It records, in the order in which they are reported, the identifiers of the
/// objects that a value refers to.
pub struct Tracer {
    seen: Vec<usize>,
}

impl View for Tracer {
    type V = Seq<usize>;

    closed spec fn view(&self) -> Seq<usize> {
        self.seen@
    }
}

impl Tracer {
    /// A tracer that has seen nothing yet.
    pub fn new() -> (tracer: Tracer)
        ensures
            tracer@ == Seq::<usize>::empty(),
    {
        Tracer { seen: Vec::new() }
    }

    /// Reports one outgoing reference, to the object `id`.
    pub fn visit(&mut self, id: usize)
        ensures
            final(self)@ == old(self)@.push(id),
    {
        self.seen.push(id);
    }

    /// The number of references reported so far.
    pub fn len(&self) -> (n: usize)
        ensures
            n == self@.len(),
    {
        self.seen.len()
    }

    /// Ends the trace and hands out what was reported.
    pub fn into_ids(self) -> (ids: Vec<usize>)
        ensures
            ids@ == self@,
    {
        self.seen
    }
}

/// What one call of `Trace::trace` may do to a tracer: it keeps what was
/// reported before, and where the traced value alone decides what it refers to
/// (`edges` is `Some`), it adds exactly those references, in order.
pub open spec fn traced(before: Seq<usize>, edges: Option<Seq<usize>>, after: Seq<usize>) -> bool {
    &&& before.is_prefix_of(after)
    &&& edges matches Some(e) ==> after =~= before + e
}

/// Joins what two parts of a value refer to: known only if both are known.
pub open spec fn join_edges(a: Option<Seq<usize>>, b: Option<Seq<usize>>) -> Option<Seq<usize>> {
    match (a, b) {
        (Some(x), Some(y)) => Some(x + y),
        _ => None,
    }
}

/// The capability of a type to take part in cycle collection.
pub trait Trace {
    /// The references that a value holds to tracked objects, where the value
    /// alone decides them. `None` stands for a value whose references can
    /// change behind a shared reference, or are walked in no fixed order.
    open spec fn edges(&self) -> Option<Seq<usize>> {
        None
    }

    /// Reports every outgoing reference of `self` to `tracer`.
    fn trace(&self, tracer: &mut Tracer)
        ensures
            traced(old(tracer)@, self.edges(), final(tracer)@),
    ;

    /// Whether values of this type can ever be part of a cycle. A type for
    /// which this is `false` is never linked into a registry. The answer
    /// depends on the type alone; each implementation states its own.
    fn is_type_tracked() -> (answer: bool) where Self: Sized;
}

/// Whether `answer` is what `T::is_type_tracked()` returns, as far as the
/// implementation for `T` states it.
pub open spec fn type_tracked_is<T: Trace>(answer: bool) -> bool {
    T::is_type_tracked.ensures((), answer)
}

/// Two traces in a row report the joined references.
pub proof fn lemma_traced_twice(
    s0: Seq<usize>,
    a: Option<Seq<usize>>,
    s1: Seq<usize>,
    b: Option<Seq<usize>>,
    s2: Seq<usize>,
)
    requires
        traced(s0, a, s1),
        traced(s1, b, s2),
    ensures
        traced(s0, join_edges(a, b), s2),
{
    if let (Some(x), Some(y)) = (a, b) {
        assert(s2 =~= s0 + (x + y));
    }
}

} // verus!
