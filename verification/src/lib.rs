//! Reference counting with cycle collection, for objects that threads share.
//!
//! A `ThreadedObjectSpace` stores values and hands out counted references to
//! them, `ThreadedCc`. An object whose count drops to zero is freed at once.
//! Objects that refer to each other in a cycle keep their counts above zero:
//! `ThreadedObjectSpace::collect_cycles` finds them by trial deletion and
//! frees them.
//!
//! The modules, leaves first:
//!
//! - `trace`: the `Trace` capability, by which a value reports the objects it
//!   refers to; `trace_impls` and `trace_cells` grant it to types of the
//!   standard library, the second one to cells and locks.
//! - `cc`: the reference `ThreadedCc`, and the form in which values are
//!   stored.
//! - `ref_count`: the reference-count cell of an object.
//! - `graph`: trial deletion on a snapshot of the objects, and what holds of
//!   it.
//! - `view`: the registry as the specification sees it, and what each
//!   operation does to it.
//! - `registry`: the slots of all objects and the list of the tracked ones.
//! - `laws`: what a collection pass does to a registry.
//! - `sync`: the object space, which guards a registry with two locks.

pub mod cc;
pub mod graph;
pub mod laws;
pub mod ref_count;
pub mod registry;
pub mod sync;
pub mod trace;
pub mod trace_cells;
pub mod trace_impls;
pub mod view;

pub use cc::{CcBox, CcDyn, ThreadedCc};
pub use graph::Node;
pub use ref_count::ThreadedRefCount;
pub use registry::{Header, Link, Registry};
pub use sync::ThreadedObjectSpace;
pub use trace::{Trace, Tracer};
pub use view::{ObjectView, RegistryView};
