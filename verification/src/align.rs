//! The alignment classifier.
//!
//! Every stored value is assigned to one of a small, fixed number of
//! alignment buckets.  Bucket `i` holds values whose alignment requirement
//! is at most `base^(i + 1)` for the configured base; the classifier maps
//! an alignment to the smallest bucket whose alignment is large enough.  A
//! type whose alignment exceeds the largest bucket's alignment is not
//! supported by the store at all.

use crate::math::is_pow2;
use vstd::prelude::*;

verus! {

/// How many alignment buckets the store keeps.
pub const DYN_VEC_ALIGN_POW_COUNT: usize = 5;

/// The base of the bucket alignments; bucket `i` is aligned to
/// `base^(i + 1)`.  Must be a power of two.
pub const DYN_VEC_ALIGN_POW_BASE: usize = 4;

/// `base^e`.
pub open spec fn pow_of(base: nat, e: nat) -> nat
    decreases e,
{
    if e == 0 {
        1
    } else {
        base * pow_of(base, (e - 1) as nat)
    }
}

/// The alignment of bucket `b`.
pub open spec fn bucket_align_spec(b: int) -> nat
    recommends
        0 <= b < DYN_VEC_ALIGN_POW_COUNT,
{
    pow_of(DYN_VEC_ALIGN_POW_BASE as nat, (b + 1) as nat)
}

/// The alignment of the largest bucket: the ceiling above which a type is
/// not supported.
pub open spec fn max_bucket_align() -> nat {
    bucket_align_spec(DYN_VEC_ALIGN_POW_COUNT as int - 1)
}

/// True when a value of alignment `align` can be stored at all.
pub open spec fn align_supported(align: nat) -> bool {
    1 <= align <= max_bucket_align()
}

/// The bucket a value of alignment `align` is stored in: the smallest
/// bucket whose alignment is at least `align`.
pub open spec fn bucket_of(align: nat) -> int
    recommends
        align_supported(align),
{
    if align <= bucket_align_spec(0) {
        0
    } else if align <= bucket_align_spec(1) {
        1
    } else if align <= bucket_align_spec(2) {
        2
    } else if align <= bucket_align_spec(3) {
        3
    } else {
        4
    }
}

/// The concrete bucket alignments, and the facts the rest of the store
/// needs about them: each is a power of two, they increase strictly, and
/// they stay far below the machine's address range.
pub proof fn lemma_bucket_align_values()
    ensures
        bucket_align_spec(0) == 4,
        bucket_align_spec(1) == 16,
        bucket_align_spec(2) == 64,
        bucket_align_spec(3) == 256,
        bucket_align_spec(4) == 1024,
        max_bucket_align() == 1024,
        forall|b: int| 0 <= b < 5 ==> is_pow2(#[trigger] bucket_align_spec(b)),
        forall|b: int| 0 <= b < 5 ==> 1 <= #[trigger] bucket_align_spec(b) <= 1024,
{
    reveal_with_fuel(pow_of, 6);
    assert(pow_of(4, 1) == 4);
    assert(pow_of(4, 2) == 16);
    assert(pow_of(4, 3) == 64);
    assert(pow_of(4, 4) == 256);
    assert(pow_of(4, 5) == 1024);
    reveal_with_fuel(is_pow2, 12);
    assert(is_pow2(4nat));
    assert(is_pow2(16nat));
    assert(is_pow2(64nat));
    assert(is_pow2(256nat));
    assert(is_pow2(1024nat));
    assert forall|b: int| 0 <= b < 5 implies is_pow2(#[trigger] bucket_align_spec(b)) by {
        if b == 0 {
        } else if b == 1 {
        } else if b == 2 {
        } else if b == 3 {
        } else {
        }
    }
}

/// The alignment of bucket `i`.
pub fn bucket_align(i: usize) -> (a: usize)
    requires
        i < DYN_VEC_ALIGN_POW_COUNT,
    ensures
        a as nat == bucket_align_spec(i as int),
        is_pow2(a as nat),
        1 <= a <= 1024,
{
    proof {
        lemma_bucket_align_values();
    }
    if i == 0 {
        4
    } else if i == 1 {
        16
    } else if i == 2 {
        64
    } else if i == 3 {
        256
    } else {
        1024
    }
}

/// Classify an alignment requirement: the index of the smallest bucket
/// whose alignment is at least `align`, together with that bucket's
/// alignment.  An alignment above the ceiling is a configuration error and
/// is excluded up front.
pub fn get_index_and_align(align: usize) -> (r: (usize, usize))
    requires
        align_supported(align as nat),
    ensures
        r.0 < DYN_VEC_ALIGN_POW_COUNT,
        r.0 as int == bucket_of(align as nat),
        r.1 as nat == bucket_align_spec(r.0 as int),
        align as nat <= r.1 as nat,
        forall|j: int| 0 <= j < r.0 ==> align as nat > #[trigger] bucket_align_spec(j),
{
    proof {
        lemma_bucket_align_values();
    }
    let mut index_to_test: usize = 0;
    while index_to_test < DYN_VEC_ALIGN_POW_COUNT
        invariant
            align_supported(align as nat),
            index_to_test <= DYN_VEC_ALIGN_POW_COUNT,
            forall|j: int| 0 <= j < index_to_test ==> align as nat > #[trigger] bucket_align_spec(
                j,
            ),
        decreases DYN_VEC_ALIGN_POW_COUNT - index_to_test,
    {
        let a = bucket_align(index_to_test);
        if align <= a {
            return (index_to_test, a);
        }
        index_to_test += 1;
    }
    // never reached: a supported alignment fits the largest bucket
    proof {
        lemma_bucket_align_values();
        assert(false);
    }
    (0, 0)
}

} // verus!
