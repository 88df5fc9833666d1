//! A heterogeneous, type-erased, contiguously packed value store.
//!
//! Values of many concrete types live together in a small set of growable
//! byte arenas, one arena per alignment class.  Each stored value is
//! described by an entry holding a vtable descriptor (the identity and
//! layout of the value's concrete type) and the byte offset of the value
//! inside its arena.  The container supports pushing a value's bytes,
//! walking all resident values bucket-major in insertion order, rewriting a
//! resident value in place, and draining: a destructive traversal that
//! hands out one owning handle per resident value and resets the arenas for
//! reuse while keeping their capacity.

pub mod align;
pub mod col;
pub mod dynvec;
pub mod math;
pub mod vtable;

pub use align::get_index_and_align;
pub use col::AlignedCol;
pub use dynvec::BaseDrainReturn;
pub use dynvec::DynVec;
pub use dynvec::ErasedValue;
pub use dynvec::Meta;
pub use vtable::BaseVtable;
pub use vtable::BaseVtableConstructor;
