//! Vtable descriptors: the type-erasure contract.
//!
//! Per concrete type admitted into the store there is one vtable: a
//! process-wide constant that stands for the type's erased behaviour (its
//! accessors and destructor live in the embedding, keyed by the vtable's
//! identity) together with the type's layout.  Every entry created for a
//! value of that type carries exactly this vtable; matching a vtable to
//! the bytes it describes is the store's load-bearing invariant, so a
//! descriptor whose alignment the store cannot honour must never be
//! constructed.

use crate::align::align_supported;
use crate::math::is_pow2;
use crate::math::is_pow2_exec;
use vstd::prelude::*;

verus! {

/// The per-type descriptor attached to every entry: the identity of the
/// concrete type's function table in the embedding, and the type's layout.
#[derive(Clone, Copy, PartialEq, Eq, Structural, Debug)]
pub struct BaseVtable {
    /// Identifies the concrete type (and so its accessors and destructor)
    /// in the embedding.  The store never compares ids; it only hands them
    /// back with the bytes they describe.
    pub id: u64,
    /// The size in bytes of a value of the type.
    pub size: usize,
    /// The alignment requirement of the type.  Always a power of two.
    pub align: usize,
}

impl BaseVtable {
    /// A descriptor the store accepts: a real alignment (a power of two)
    /// that does not exceed the configured ceiling.
    pub open spec fn wf(self) -> bool {
        &&& is_pow2(self.align as nat)
        &&& align_supported(self.align as nat)
    }
}

/// Builds the vtable descriptor for a concrete type, checking the type's
/// alignment against the store's ceiling.  A type whose alignment is not a
/// power of two or exceeds the largest bucket's alignment is refused here,
/// before any value of it could ever be stored misaligned.
pub struct BaseVtableConstructor;

impl BaseVtableConstructor {
    /// The descriptor for a type of the given identity and layout, or
    /// `None` exactly when the store does not support the alignment.
    pub fn vtable_for(id: u64, size: usize, align: usize) -> (r: Option<BaseVtable>)
        ensures
            match r {
                Some(vt) => vt == (BaseVtable { id, size, align }) && vt.wf(),
                None => !(BaseVtable { id, size, align }).wf(),
            },
    {
        if is_pow2_exec(align) && align <= 1024 {
            proof {
                crate::align::lemma_bucket_align_values();
            }
            Some(BaseVtable { id, size, align })
        } else {
            proof {
                crate::align::lemma_bucket_align_values();
            }
            None
        }
    }
}

} // verus!
