//! The container: one arena column and one entry list per alignment
//! bucket.
//!
//! A push classifies the value's alignment, appends the value's bytes to
//! the matching column and records an entry `{vtable, offset}` for it.
//! Traversals walk buckets in ascending order and, within a bucket,
//! entries in insertion order — so values come out grouped by alignment
//! bucket, not in global insertion order.  A drain removes every entry,
//! resets each column's cursor for reuse (capacity is retained) and hands
//! out one owning handle per removed value.
//!
//! Abstractly the container is, per bucket, a sequence of
//! `(vtable, value bytes)` pairs; every contract below is stated over that
//! model.

use crate::align::DYN_VEC_ALIGN_POW_COUNT;
use crate::align::bucket_align_spec;
use crate::align::bucket_of;
use crate::align::get_index_and_align;
use crate::align::lemma_bucket_align_values;
use crate::col::AlignedCol;
use crate::col::grow_target;
use crate::math::lemma_round_up_props;
use crate::math::lemma_subrange_of_equal_prefix;
use crate::math::lemma_subrange_of_equal_range;
use crate::math::round_up;
use crate::vtable::BaseVtable;
use vstd::prelude::*;

verus! {

/// Entry metadata for one stored value: which concrete type it is (by
/// vtable) and where its bytes start inside its bucket's column.
#[derive(Clone, Copy)]
pub struct Meta {
    /// The vtable of the exact concrete type that was pushed; no other
    /// vtable may ever be substituted for this entry's bytes.
    pub vtable: BaseVtable,
    /// The byte offset of the value inside its bucket's column.
    pub offset: usize,
}

/// The heterogeneous store: one column and one entry list per bucket.
pub struct DynVec {
    /// The byte arenas, indexed by bucket.
    pub cols: Vec<AlignedCol>,
    /// The entry lists, indexed by bucket, each in insertion order.
    pub metas: Vec<Vec<Meta>>,
}

impl DynVec {
    /// The values resident in bucket `b`, in insertion order, as
    /// `(vtable, bytes)` pairs read back from the column.
    pub open spec fn bucket_items(self, b: int) -> Seq<(BaseVtable, Seq<u8>)>
        recommends
            0 <= b < DYN_VEC_ALIGN_POW_COUNT,
    {
        self.metas@[b]@.map(
            |k: int, m: Meta|
                (m.vtable, self.cols@[b].data().subrange(
                    m.offset as int,
                    m.offset + m.vtable.size,
                )),
        )
    }

    /// All values of the buckets below `b`, bucket-major.
    pub open spec fn items_below(self, b: int) -> Seq<(BaseVtable, Seq<u8>)>
        decreases b,
    {
        if b <= 0 {
            Seq::empty()
        } else {
            self.items_below(b - 1) + self.bucket_items(b - 1)
        }
    }

    /// All values of the buckets from `b` on, bucket-major.
    pub open spec fn items_from(self, b: int) -> Seq<(BaseVtable, Seq<u8>)>
        decreases DYN_VEC_ALIGN_POW_COUNT as int - b,
    {
        if b >= DYN_VEC_ALIGN_POW_COUNT as int {
            Seq::empty()
        } else {
            self.bucket_items(b) + self.items_from(b + 1)
        }
    }

    /// Every resident value, bucket-major, in insertion order within each
    /// bucket: the order in which traversals yield them.
    pub open spec fn items(self) -> Seq<(BaseVtable, Seq<u8>)> {
        self.items_below(DYN_VEC_ALIGN_POW_COUNT as int)
    }

    /// Bucket `b`'s write cursor.
    pub open spec fn bucket_cursor(self, b: int) -> nat {
        self.cols@[b].cursor as nat
    }

    /// Bucket `b`'s column capacity in bytes.
    pub open spec fn bucket_capacity(self, b: int) -> nat {
        self.cols@[b].capacity()
    }

    /// What must hold of entry `k` of bucket `b`: its vtable is one the
    /// store accepts and classifies into this very bucket, its bytes lie
    /// inside the written part of the column, and its offset sits on the
    /// bucket's alignment boundary.
    pub open spec fn entry_wf(self, b: int, k: int) -> bool
        recommends
            0 <= b < DYN_VEC_ALIGN_POW_COUNT,
            0 <= k < self.metas@[b]@.len(),
    {
        let m = self.metas@[b]@[k];
        &&& m.vtable.wf()
        &&& bucket_of(m.vtable.align as nat) == b
        &&& m.offset + m.vtable.size <= self.cols@[b].cursor
        &&& m.offset as nat % bucket_align_spec(b) == 0
    }

    /// Within a bucket, earlier entries end before later ones begin, so
    /// no two values' bytes overlap.  A zero-sized value occupies no bytes
    /// and may share offset 0 with anything.
    pub open spec fn entries_disjoint(self, b: int, k1: int, k2: int) -> bool
        recommends
            0 <= b < DYN_VEC_ALIGN_POW_COUNT,
            0 <= k1 < k2 < self.metas@[b]@.len(),
    {
        let m1 = self.metas@[b]@[k1];
        let m2 = self.metas@[b]@[k2];
        m1.offset + m1.vtable.size <= m2.offset || m2.vtable.size == 0
    }

    /// The container invariant.
    pub open spec fn wf(self) -> bool {
        &&& self.cols@.len() == DYN_VEC_ALIGN_POW_COUNT
        &&& self.metas@.len() == DYN_VEC_ALIGN_POW_COUNT
        &&& forall|b: int|
            0 <= b < DYN_VEC_ALIGN_POW_COUNT ==> (#[trigger] self.cols@[b]).wf(
                bucket_align_spec(b),
            )
        &&& forall|b: int, k: int|
            0 <= b < DYN_VEC_ALIGN_POW_COUNT && 0 <= k < self.metas@[b]@.len()
                ==> self.entry_wf(b, k)
        &&& forall|b: int, k1: int, k2: int|
            0 <= b < DYN_VEC_ALIGN_POW_COUNT && 0 <= k1 < k2 < self.metas@[b]@.len()
                ==> self.entries_disjoint(b, k1, k2)
    }

    /// An empty store: every bucket has no entries, no buffer, cursor 0.
    pub fn new() -> (v: DynVec)
        ensures
            v.wf(),
            v.items() == Seq::<(BaseVtable, Seq<u8>)>::empty(),
            forall|b: int|
                0 <= b < DYN_VEC_ALIGN_POW_COUNT ==> #[trigger] v.bucket_items(b) == Seq::<
                    (BaseVtable, Seq<u8>),
                >::empty(),
            forall|b: int|
                0 <= b < DYN_VEC_ALIGN_POW_COUNT ==> #[trigger] v.bucket_cursor(b) == 0
                    && v.bucket_capacity(b) == 0,
    {
        let mut cols: Vec<AlignedCol> = Vec::new();
        let mut metas: Vec<Vec<Meta>> = Vec::new();
        let mut i: usize = 0;
        while i < DYN_VEC_ALIGN_POW_COUNT
            invariant
                cols@.len() == i,
                metas@.len() == i,
                i <= DYN_VEC_ALIGN_POW_COUNT,
                forall|b: int|
                    0 <= b < i ==> (#[trigger] cols@[b]).capacity() == 0 && cols@[b].cursor == 0,
                forall|b: int| 0 <= b < i ==> (#[trigger] metas@[b])@.len() == 0,
            decreases DYN_VEC_ALIGN_POW_COUNT - i,
        {
            cols.push(AlignedCol::new());
            metas.push(Vec::new());
            i += 1;
        }
        let v = DynVec { cols, metas };
        proof {
            lemma_bucket_align_values();
            assert forall|b: int|
                0 <= b < DYN_VEC_ALIGN_POW_COUNT implies (#[trigger] v.cols@[b]).wf(
                bucket_align_spec(b),
            ) by {
                assert(0nat % bucket_align_spec(b) == 0);
            }
            assert forall|b: int|
                0 <= b < DYN_VEC_ALIGN_POW_COUNT implies #[trigger] v.bucket_items(b) == Seq::<
                (BaseVtable, Seq<u8>),
            >::empty() by {
                assert(v.bucket_items(b) =~= Seq::<(BaseVtable, Seq<u8>)>::empty());
            }
            reveal_with_fuel(DynVec::items_below, 6);
            assert(v.items() =~= Seq::<(BaseVtable, Seq<u8>)>::empty());
        }
        v
    }

    /// Store one value: classify its alignment, append its bytes to the
    /// matching column and record its entry.  Exactly the classified
    /// bucket gains the value at the end of its sequence; every other
    /// bucket is untouched.  The bucket's capacity changes only when the
    /// value does not fit into the remaining space, and then in one step
    /// to the next fitting power of two.
    pub fn push(&mut self, vtable: BaseVtable, bytes: &[u8])
        requires
            old(self).wf(),
            vtable.wf(),
            bytes@.len() == vtable.size,
            old(self).bucket_cursor(bucket_of(vtable.align as nat)) + vtable.size <= usize::MAX
                / 2,
        ensures
            final(self).wf(),
            ({
                let b = bucket_of(vtable.align as nat);
                &&& final(self).bucket_items(b) == old(self).bucket_items(b).push(
                    (vtable, bytes@),
                )
                &&& forall|b2: int|
                    0 <= b2 < DYN_VEC_ALIGN_POW_COUNT && b2 != b
                        ==> #[trigger] final(self).bucket_items(b2)
                        == old(self).bucket_items(b2)
                &&& forall|b2: int|
                    0 <= b2 < DYN_VEC_ALIGN_POW_COUNT && b2 != b
                        ==> #[trigger] final(self).bucket_cursor(b2)
                        == old(self).bucket_cursor(b2)
                        && final(self).bucket_capacity(b2)
                        == old(self).bucket_capacity(b2)
                &&& final(self).bucket_cursor(b) == (if vtable.size == 0 {
                    old(self).bucket_cursor(b)
                } else {
                    old(self).bucket_cursor(b) + round_up(
                        vtable.size as nat,
                        bucket_align_spec(b),
                    )
                })
                &&& final(self).bucket_capacity(b) >= old(self).bucket_capacity(b)
                &&& vtable.size <= old(self).bucket_capacity(b) - old(self).bucket_cursor(b)
                    ==> final(self).bucket_capacity(b) == old(self).bucket_capacity(b)
                &&& vtable.size > old(self).bucket_capacity(b) - old(self).bucket_cursor(b)
                    ==> final(self).bucket_capacity(b) == grow_target(
                    old(self).bucket_cursor(b),
                    vtable.size as nat,
                    bucket_align_spec(b),
                )
                &&& final(self).items() == old(self).items_below(b + 1) + seq![(vtable, bytes@)]
                    + old(self).items_from(b + 1)
                &&& final(self).items().len() == old(self).items().len() + 1
            }),
    {
        let (index, align) = get_index_and_align(vtable.align);
        proof {
            lemma_bucket_align_values();
        }
        let ghost pre = *self;
        let col = vec_index_mut(&mut self.cols, index);
        let offset = col.push(bytes, align);
        let ms = vec_index_mut(&mut self.metas, index);
        ms.push(Meta { vtable, offset });
        proof {
            let b = index as int;
            lemma_round_up_props(vtable.size as nat, bucket_align_spec(b));
            assert forall|b2: int|
                0 <= b2 < DYN_VEC_ALIGN_POW_COUNT && b2 != b implies #[trigger] self.bucket_items(
                b2,
            ) == pre.bucket_items(b2) by {
                assert(self.cols@[b2] == pre.cols@[b2]);
                assert(self.metas@[b2] == pre.metas@[b2]);
                assert(self.bucket_items(b2) =~= pre.bucket_items(b2));
            }
            let oc = pre.cols@[b];
            let nc = self.cols@[b];
            assert forall|k: int|
                0 <= k < pre.metas@[b]@.len() implies #[trigger] self.bucket_items(b)[k]
                == pre.bucket_items(b)[k] by {
                assert(pre.entry_wf(b, k));
                let m = pre.metas@[b]@[k];
                lemma_subrange_of_equal_prefix(
                    nc.data(),
                    oc.data(),
                    oc.cursor as int,
                    m.offset as int,
                    m.offset + m.vtable.size,
                );
            }
            if vtable.size == 0 {
                assert(nc.data().subrange(offset as int, offset + vtable.size) =~= bytes@);
            }
            assert(self.metas@[b]@ == pre.metas@[b]@.push(Meta { vtable, offset }));
            assert(self.bucket_items(b).len() == pre.bucket_items(b).len() + 1);
            let last = pre.bucket_items(b).len() as int;
            assert(self.metas@[b]@[last] == Meta { vtable, offset });
            assert(nc.data().subrange(offset as int, offset + vtable.size) == bytes@);
            assert(self.bucket_items(b)[last] == (vtable, bytes@));
            assert(self.bucket_items(b) =~= pre.bucket_items(b).push((vtable, bytes@)));
            assert(oc.wf(bucket_align_spec(b)));
            assert forall|b2: int, k: int|
                0 <= b2 < DYN_VEC_ALIGN_POW_COUNT && 0 <= k < self.metas@[b2]@.len()
                    implies self.entry_wf(b2, k) by {
                let m2 = self.metas@[b2]@[k];
                if b2 != b {
                    assert(self.cols@[b2] == pre.cols@[b2]);
                    assert(self.metas@[b2] == pre.metas@[b2]);
                    assert(pre.entry_wf(b2, k));
                } else if k < pre.metas@[b]@.len() {
                    assert(pre.entry_wf(b, k));
                    assert(self.metas@[b]@[k] == pre.metas@[b]@[k]);
                    assert(nc.cursor >= oc.cursor);
                } else {
                    assert(m2.vtable == vtable);
                    assert(m2.offset == offset);
                    if vtable.size == 0 {
                        assert(offset == 0);
                        assert(0nat % bucket_align_spec(b) == 0);
                    } else {
                        assert(offset == oc.cursor);
                        assert(oc.cursor as nat % bucket_align_spec(b) == 0);
                    }
                }
                assert(m2.vtable.wf());
                assert(bucket_of(m2.vtable.align as nat) == b2);
                assert(m2.offset + m2.vtable.size <= self.cols@[b2].cursor);
                assert(m2.offset as nat % bucket_align_spec(b2) == 0);
            }
            assert forall|b2: int, k1: int, k2: int|
                0 <= b2 < DYN_VEC_ALIGN_POW_COUNT && 0 <= k1 < k2 < self.metas@[b2]@.len()
                    implies self.entries_disjoint(b2, k1, k2) by {
                if b2 != b {
                    assert(pre.entries_disjoint(b2, k1, k2));
                } else if k2 < pre.metas@[b]@.len() {
                    assert(pre.entries_disjoint(b, k1, k2));
                } else {
                    assert(pre.entry_wf(b, k1));
                }
            }
            lemma_push_groups_by_bucket(pre, *self, vtable, bytes@);
        }
    }
}

/// One value as a traversal yields it: the vtable of its concrete type
/// and the value's bytes, read back from its column.
pub struct ErasedValue {
    /// The vtable of the value's concrete type.
    pub vtable: BaseVtable,
    /// The value's bytes.
    pub bytes: Vec<u8>,
}

/// The `(vtable, bytes)` pair an `ErasedValue` stands for.
pub open spec fn erased_view(e: ErasedValue) -> (BaseVtable, Seq<u8>) {
    (e.vtable, e.bytes@)
}

/// A traversal result as a sequence of `(vtable, bytes)` pairs.
pub open spec fn erased_seq_view(s: Seq<ErasedValue>) -> Seq<(BaseVtable, Seq<u8>)> {
    s.map_values(|e: ErasedValue| erased_view(e))
}

impl DynVec {
    /// Walk every resident value: buckets in ascending order, entries in
    /// insertion order within each bucket.  Yields exactly `items()` — the
    /// pushed values, grouped by alignment bucket — without touching the
    /// store.
    pub fn iter(&self) -> (r: Vec<ErasedValue>)
        requires
            self.wf(),
        ensures
            erased_seq_view(r@) == self.items(),
            r@.len() == self.items().len(),
    {
        let mut out: Vec<ErasedValue> = Vec::new();
        let mut b: usize = 0;
        while b < DYN_VEC_ALIGN_POW_COUNT
            invariant
                self.wf(),
                b <= DYN_VEC_ALIGN_POW_COUNT,
                erased_seq_view(out@) == self.items_below(b as int),
            decreases DYN_VEC_ALIGN_POW_COUNT - b,
        {
            let n = self.metas[b].len();
            let mut k: usize = 0;
            while k < n
                invariant
                    self.wf(),
                    b < DYN_VEC_ALIGN_POW_COUNT,
                    n == self.metas@[b as int]@.len(),
                    k <= n,
                    erased_seq_view(out@) == self.items_below(b as int) + self.bucket_items(
                        b as int,
                    ).take(k as int),
                decreases n - k,
            {
                proof {
                    assert(self.entry_wf(b as int, k as int));
                }
                let m = self.metas[b][k];
                let s = vstd::slice::slice_subrange(
                    self.cols[b].buf.as_slice(),
                    m.offset,
                    m.offset + m.vtable.size,
                );
                let bytes = vstd::slice::slice_to_vec(s);
                let ghost prev = out@;
                out.push(ErasedValue { vtable: m.vtable, bytes });
                proof {
                    assert(erased_seq_view(out@) =~= erased_seq_view(prev).push(
                        (m.vtable, s@),
                    ));
                    assert(self.bucket_items(b as int).take(k + 1) =~= self.bucket_items(
                        b as int,
                    ).take(k as int).push(self.bucket_items(b as int)[k as int]));
                }
                k += 1;
            }
            proof {
                assert(self.bucket_items(b as int).take(n as int) =~= self.bucket_items(
                    b as int,
                ));
                assert(self.items_below(b as int) + self.bucket_items(b as int)
                    =~= self.items_below(b as int + 1));
            }
            b += 1;
        }
        out
    }
}

impl DynVec {
    /// How many values are resident in bucket `b`.
    pub fn bucket_len(&self, b: usize) -> (n: usize)
        requires
            self.wf(),
            b < DYN_VEC_ALIGN_POW_COUNT,
        ensures
            n == self.bucket_items(b as int).len(),
    {
        self.metas[b].len()
    }

    /// The vtable of entry `k` of bucket `b`.
    pub fn entry_vtable(&self, b: usize, k: usize) -> (vt: BaseVtable)
        requires
            self.wf(),
            b < DYN_VEC_ALIGN_POW_COUNT,
            k < self.bucket_items(b as int).len(),
        ensures
            vt == self.bucket_items(b as int)[k as int].0,
    {
        self.metas[b][k].vtable
    }

    /// Borrow the bytes of entry `k` of bucket `b`, at the address the
    /// column holds them today.  The borrow ties up the store: no push,
    /// growth or drain can happen while it lives, so a reference can
    /// never outlive the buffer it points into.
    pub fn entry_bytes(&self, b: usize, k: usize) -> (r: &[u8])
        requires
            self.wf(),
            b < DYN_VEC_ALIGN_POW_COUNT,
            k < self.bucket_items(b as int).len(),
        ensures
            r@ == self.bucket_items(b as int)[k as int].1,
    {
        proof {
            assert(self.entry_wf(b as int, k as int));
        }
        let m = self.metas[b][k];
        vstd::slice::slice_subrange(
            self.cols[b].buf.as_slice(),
            m.offset,
            m.offset + m.vtable.size,
        )
    }

    /// Rewrite entry `k` of bucket `b` in place, as a mutable traversal
    /// would: the entry keeps its vtable and its place, only its bytes
    /// change.  The new bytes must have the value's exact size.  No other
    /// entry, no entry list and no column shape is affected.
    pub fn write_entry(&mut self, b: usize, k: usize, bytes: &[u8])
        requires
            old(self).wf(),
            b < DYN_VEC_ALIGN_POW_COUNT,
            k < old(self).metas@[b as int]@.len(),
            bytes@.len() == old(self).metas@[b as int]@[k as int].vtable.size,
        ensures
            final(self).wf(),
            final(self).metas == old(self).metas,
            final(self).bucket_items(b as int) == old(self).bucket_items(b as int).update(
                k as int,
                (old(self).metas@[b as int]@[k as int].vtable, bytes@),
            ),
            forall|b2: int|
                0 <= b2 < DYN_VEC_ALIGN_POW_COUNT && b2 != b
                    ==> #[trigger] final(self).bucket_items(b2) == old(self).bucket_items(b2),
            forall|b2: int|
                0 <= b2 < DYN_VEC_ALIGN_POW_COUNT
                    ==> #[trigger] final(self).bucket_cursor(b2) == old(self).bucket_cursor(b2)
                    && final(self).bucket_capacity(b2) == old(self).bucket_capacity(b2),
    {
        proof {
            assert(old(self).entry_wf(b as int, k as int));
        }
        let m = self.metas[b][k];
        let col = vec_index_mut(&mut self.cols, b);
        col.write_at(m.offset, bytes);
        proof {
            let bi = b as int;
            let ki = k as int;
            let pre = *old(self);
            let oc = pre.cols@[bi];
            let nc = self.cols@[bi];
            let size = m.vtable.size as int;
            assert forall|b2: int|
                0 <= b2 < DYN_VEC_ALIGN_POW_COUNT && b2 != bi implies #[trigger] self.bucket_items(
                b2,
            ) == pre.bucket_items(b2) by {
                assert(self.cols@[b2] == pre.cols@[b2]);
                assert(self.bucket_items(b2) =~= pre.bucket_items(b2));
            }
            assert forall|k2: int|
                0 <= k2 < pre.metas@[bi]@.len() && k2 != ki implies #[trigger] self.bucket_items(
                bi,
            )[k2] == pre.bucket_items(bi)[k2] by {
                assert(pre.entry_wf(bi, k2));
                let m2 = pre.metas@[bi]@[k2];
                if m2.vtable.size == 0 {
                    assert(nc.data().subrange(m2.offset as int, m2.offset + 0) =~= oc
                        .data().subrange(m2.offset as int, m2.offset + 0));
                } else if bytes@.len() == 0 {
                    assert forall|i: int| 0 <= i < oc.capacity() implies nc.data()[i] == oc
                        .data()[i] by {
                        if i < m.offset {
                            assert(nc.data().subrange(0, m.offset as int)[i] == oc
                                .data().subrange(0, m.offset as int)[i]);
                        } else {
                            assert(nc.data().subrange(m.offset as int, oc.capacity() as int)[
                                i - m.offset] == oc.data().subrange(
                                m.offset as int,
                                oc.capacity() as int,
                            )[i - m.offset]);
                        }
                    }
                    assert(nc.data() =~= oc.data());
                } else if k2 < ki {
                    assert(pre.entries_disjoint(bi, k2, ki));
                    lemma_subrange_of_equal_range(
                        nc.data(),
                        oc.data(),
                        0,
                        m.offset as int,
                        m2.offset as int,
                        m2.offset + m2.vtable.size,
                    );
                } else {
                    assert(pre.entries_disjoint(bi, ki, k2));
                    assert(pre.entry_wf(bi, k2));
                    lemma_subrange_of_equal_range(
                        nc.data(),
                        oc.data(),
                        m.offset + size,
                        oc.capacity() as int,
                        m2.offset as int,
                        m2.offset + m2.vtable.size,
                    );
                }
            }
            assert(self.bucket_items(bi) =~= pre.bucket_items(bi).update(
                ki,
                (m.vtable, bytes@),
            ));
            assert forall|b2: int, k2: int|
                0 <= b2 < DYN_VEC_ALIGN_POW_COUNT && 0 <= k2 < self.metas@[b2]@.len()
                    implies self.entry_wf(b2, k2) by {
                assert(pre.entry_wf(b2, k2));
            }
            assert forall|b2: int, k1: int, k2: int|
                0 <= b2 < DYN_VEC_ALIGN_POW_COUNT && 0 <= k1 < k2 < self.metas@[b2]@.len()
                    implies self.entries_disjoint(b2, k1, k2) by {
                assert(pre.entries_disjoint(b2, k1, k2));
            }
        }
    }
}

/// An owning handle for one drained value: the value's vtable and its
/// bytes, now owned by the handle alone.
///
/// A handle is finalized exactly once: either `destruct` takes the vtable
/// and the bytes out (an ownership-consuming operation of the embedding
/// then takes over the value's resources), or the handle is dropped and
/// the bytes go down with it.  Rust's move discipline makes a second
/// finalization impossible.
pub struct BaseDrainReturn {
    /// The vtable of the drained value's concrete type.
    pub vtable: BaseVtable,
    /// The drained value's bytes, owned by this handle.
    pub bytes: Vec<u8>,
}

/// The `(vtable, bytes)` pair a drain handle stands for.
pub open spec fn handle_view(h: BaseDrainReturn) -> (BaseVtable, Seq<u8>) {
    (h.vtable, h.bytes@)
}

/// A drain result as a sequence of `(vtable, bytes)` pairs.
pub open spec fn handle_seq_view(s: Seq<BaseDrainReturn>) -> Seq<(BaseVtable, Seq<u8>)> {
    s.map_values(|h: BaseDrainReturn| handle_view(h))
}

impl BaseDrainReturn {
    /// Take the handle apart: the vtable and the owned bytes, consuming
    /// the handle so that no destructor can run for it afterwards.  This
    /// is how an ownership-consuming operation of the embedding claims the
    /// value.
    pub fn destruct(self) -> (r: (BaseVtable, Vec<u8>))
        ensures
            r.0 == self.vtable,
            r.1 == self.bytes,
    {
        (self.vtable, self.bytes)
    }

    /// Borrow the value's bytes: the type-erased shared view of the
    /// drained value.
    pub fn as_dyn_ref(&self) -> (r: &[u8])
        ensures
            r@ == self.bytes@,
    {
        self.bytes.as_slice()
    }

    /// Borrow the value's bytes mutably: the type-erased exclusive view
    /// of the drained value.
    pub fn as_mut_dyn_ref(&mut self) -> (r: &mut Vec<u8>)
        ensures
            *r == old(self).bytes,
            final(self).bytes == *final(r),
            final(self).vtable == old(self).vtable,
    {
        &mut self.bytes
    }
}

impl DynVec {
    /// Buckets from `b` on still hold exactly what they held in `pre`.
    pub open spec fn untouched_from(self, pre: DynVec, b: int) -> bool {
        forall|b2: int|
            b <= b2 < DYN_VEC_ALIGN_POW_COUNT ==> #[trigger] self.cols@[b2] == pre.cols@[b2]
                && self.metas@[b2] == pre.metas@[b2]
    }

    /// Buckets below `b` are drained: no entries left, cursor reset to 0,
    /// the buffer and with it the capacity retained from `pre`.
    pub open spec fn drained_below(self, pre: DynVec, b: int) -> bool {
        forall|b2: int|
            0 <= b2 < b ==> (#[trigger] self.metas@[b2])@.len() == 0 && self.cols@[b2].cursor
                == 0 && self.cols@[b2].buf == pre.cols@[b2].buf
    }

    /// Drain the store: remove every entry, reset every column's cursor
    /// for reuse — capacities are retained untouched — and return one
    /// owning handle per removed value, bucket-major, in insertion order
    /// within each bucket.  After a drain the store holds nothing and a
    /// traversal yields nothing.
    #[verifier::rlimit(50)]
    pub fn drain(&mut self) -> (r: Vec<BaseDrainReturn>)
        requires
            old(self).wf(),
        ensures
            final(self).wf(),
            handle_seq_view(r@) == old(self).items(),
            r@.len() == old(self).items().len(),
            final(self).items() == Seq::<(BaseVtable, Seq<u8>)>::empty(),
            forall|b: int|
                0 <= b < DYN_VEC_ALIGN_POW_COUNT ==> #[trigger] final(self).bucket_items(b)
                    == Seq::<(BaseVtable, Seq<u8>)>::empty(),
            forall|b: int|
                0 <= b < DYN_VEC_ALIGN_POW_COUNT ==> #[trigger] final(self).bucket_cursor(b)
                    == 0 && final(self).bucket_capacity(b) == old(self).bucket_capacity(b),
    {
        let ghost pre = *old(self);
        let mut out: Vec<BaseDrainReturn> = Vec::new();
        let mut b: usize = 0;
        while b < DYN_VEC_ALIGN_POW_COUNT
            invariant
                pre.wf(),
                b <= DYN_VEC_ALIGN_POW_COUNT,
                self.cols@.len() == DYN_VEC_ALIGN_POW_COUNT,
                self.metas@.len() == DYN_VEC_ALIGN_POW_COUNT,
                self.untouched_from(pre, b as int),
                self.drained_below(pre, b as int),
                handle_seq_view(out@) == pre.items_below(b as int),
            decreases DYN_VEC_ALIGN_POW_COUNT - b,
        {
            let n = self.metas[b].len();
            let mut k: usize = 0;
            while k < n
                invariant
                    pre.wf(),
                    b < DYN_VEC_ALIGN_POW_COUNT,
                    self.cols@.len() == DYN_VEC_ALIGN_POW_COUNT,
                    self.metas@.len() == DYN_VEC_ALIGN_POW_COUNT,
                    self.untouched_from(pre, b as int),
                    self.drained_below(pre, b as int),
                    n == self.metas@[b as int]@.len(),
                    k <= n,
                    handle_seq_view(out@) == pre.items_below(b as int) + pre.bucket_items(
                        b as int,
                    ).take(k as int),
                decreases n - k,
            {
                proof {
                    assert(self.cols@[b as int] == pre.cols@[b as int]);
                    assert(self.metas@[b as int] == pre.metas@[b as int]);
                    assert(pre.entry_wf(b as int, k as int));
                    assert(pre.bucket_items(b as int)[k as int] == (
                        pre.metas@[b as int]@[k as int].vtable,
                        pre.cols@[b as int].data().subrange(
                            pre.metas@[b as int]@[k as int].offset as int,
                            pre.metas@[b as int]@[k as int].offset + pre.metas@[b as int]@[
                                k as int].vtable.size,
                        ),
                    ));
                }
                let m = self.metas[b][k];
                let s = vstd::slice::slice_subrange(
                    self.cols[b].buf.as_slice(),
                    m.offset,
                    m.offset + m.vtable.size,
                );
                let bytes = vstd::slice::slice_to_vec(s);
                let ghost prevout = out@;
                out.push(BaseDrainReturn { vtable: m.vtable, bytes });
                proof {
                    assert(handle_seq_view(out@) =~= handle_seq_view(prevout).push(
                        (m.vtable, s@),
                    ));
                    assert(pre.bucket_items(b as int).take(k + 1) =~= pre.bucket_items(
                        b as int,
                    ).take(k as int).push(pre.bucket_items(b as int)[k as int]));
                }
                k += 1;
            }
            proof {
                assert(self.cols@[b as int] == pre.cols@[b as int]);
                assert(self.metas@[b as int] == pre.metas@[b as int]);
                assert(pre.bucket_items(b as int).take(n as int) =~= pre.bucket_items(
                    b as int,
                ));
                assert(pre.items_below(b as int) + pre.bucket_items(b as int)
                    =~= pre.items_below(b as int + 1));
            }
            let ghost before = *self;
            self.metas.set(b, Vec::new());
            let col = vec_index_mut(&mut self.cols, b);
            col.reset();
            proof {
                assert forall|b2: int|
                    b + 1 <= b2 < DYN_VEC_ALIGN_POW_COUNT implies #[trigger] self.cols@[b2]
                    == pre.cols@[b2] && self.metas@[b2] == pre.metas@[b2] by {
                    assert(before.cols@[b2] == pre.cols@[b2]);
                    assert(before.metas@[b2] == pre.metas@[b2]);
                }
                assert(self.untouched_from(pre, b + 1));
                assert forall|b2: int|
                    0 <= b2 < b + 1 implies (#[trigger] self.metas@[b2])@.len() == 0
                    && self.cols@[b2].cursor == 0 && self.cols@[b2].buf == pre.cols@[
                    b2].buf by {
                    if b2 < b {
                        assert(before.metas@[b2]@.len() == 0);
                        assert(before.cols@[b2].cursor == 0);
                        assert(before.cols@[b2].buf == pre.cols@[b2].buf);
                    } else {
                        assert(before.cols@[b2] == pre.cols@[b2]);
                    }
                }
                assert(self.drained_below(pre, b + 1));
            }
            b += 1;
        }
        proof {
            lemma_bucket_align_values();
            assert forall|b2: int|
                0 <= b2 < DYN_VEC_ALIGN_POW_COUNT implies (#[trigger] self.cols@[b2]).wf(
                bucket_align_spec(b2),
            ) by {
                assert(self.metas@[b2]@.len() == 0);
                assert(pre.cols@[b2].wf(bucket_align_spec(b2)));
                assert(0nat % bucket_align_spec(b2) == 0);
            }
            assert forall|b2: int|
                0 <= b2 < DYN_VEC_ALIGN_POW_COUNT implies #[trigger] self.bucket_items(b2)
                == Seq::<(BaseVtable, Seq<u8>)>::empty() by {
                assert(self.bucket_items(b2) =~= Seq::<(BaseVtable, Seq<u8>)>::empty());
            }
            reveal_with_fuel(DynVec::items_below, 6);
            assert(self.items() =~= Seq::<(BaseVtable, Seq<u8>)>::empty());
        }
        out
    }
}

/// The full traversal order splits at any bucket boundary into the
/// buckets below it and the buckets from it on.
pub proof fn lemma_items_split(v: DynVec, b: int)
    requires
        0 <= b <= DYN_VEC_ALIGN_POW_COUNT,
    ensures
        v.items() == v.items_below(b) + v.items_from(b),
    decreases DYN_VEC_ALIGN_POW_COUNT as int - b,
{
    if b == DYN_VEC_ALIGN_POW_COUNT as int {
        assert(v.items() =~= v.items_below(b) + v.items_from(b));
    } else {
        lemma_items_split(v, b + 1);
        assert(v.items_below(b + 1) + v.items_from(b + 1) =~= v.items_below(b) + v.items_from(
            b,
        ));
    }
}

/// Two states whose buckets below `b` hold the same values agree on
/// everything a traversal yields before bucket `b`.
pub proof fn lemma_items_below_congruent(v1: DynVec, v2: DynVec, b: int)
    requires
        0 <= b <= DYN_VEC_ALIGN_POW_COUNT,
        forall|b2: int| 0 <= b2 < b ==> #[trigger] v1.bucket_items(b2) == v2.bucket_items(b2),
    ensures
        v1.items_below(b) == v2.items_below(b),
    decreases b,
{
    if b > 0 {
        lemma_items_below_congruent(v1, v2, b - 1);
    }
}

/// Two states whose buckets from `b` on hold the same values agree on
/// everything a traversal yields from bucket `b` on.
pub proof fn lemma_items_from_congruent(v1: DynVec, v2: DynVec, b: int)
    requires
        0 <= b <= DYN_VEC_ALIGN_POW_COUNT,
        forall|b2: int|
            b <= b2 < DYN_VEC_ALIGN_POW_COUNT ==> #[trigger] v1.bucket_items(b2)
                == v2.bucket_items(b2),
    ensures
        v1.items_from(b) == v2.items_from(b),
    decreases DYN_VEC_ALIGN_POW_COUNT as int - b,
{
    if b < DYN_VEC_ALIGN_POW_COUNT as int {
        lemma_items_from_congruent(v1, v2, b + 1);
    }
}

/// Law: a push places the new value at the end of its alignment bucket's
/// group, not at the end of the whole traversal order.  If `post` relates
/// to `pre` as `push(vt, bytes)` leaves the store — the classified bucket
/// gained exactly the new value at its end and every other bucket is
/// unchanged — then the traversal order of `post` is that of `pre` with
/// the new value spliced in right after `pre`'s values of that bucket,
/// and the total count grew by one.
pub proof fn lemma_push_groups_by_bucket(
    pre: DynVec,
    post: DynVec,
    vt: BaseVtable,
    bytes: Seq<u8>,
)
    requires
        vt.wf(),
        post.bucket_items(bucket_of(vt.align as nat)) == pre.bucket_items(
            bucket_of(vt.align as nat),
        ).push((vt, bytes)),
        forall|b2: int|
            0 <= b2 < DYN_VEC_ALIGN_POW_COUNT && b2 != bucket_of(vt.align as nat)
                ==> #[trigger] post.bucket_items(b2) == pre.bucket_items(b2),
    ensures
        post.items() == pre.items_below(bucket_of(vt.align as nat) + 1) + seq![(vt, bytes)]
            + pre.items_from(bucket_of(vt.align as nat) + 1),
        post.items().len() == pre.items().len() + 1,
{
    let b = bucket_of(vt.align as nat);
    lemma_items_split(post, b + 1);
    lemma_items_split(pre, b + 1);
    lemma_items_below_congruent(pre, post, b);
    lemma_items_from_congruent(pre, post, b + 1);
    assert(post.items_below(b + 1) == post.items_below(b) + post.bucket_items(b));
    assert(post.items_below(b + 1) =~= pre.items_below(b + 1) + seq![(vt, bytes)]);
    assert(post.items() =~= pre.items_below(b + 1) + seq![(vt, bytes)] + pre.items_from(b + 1));
}

/// Law: every resident value sits on a byte offset that is a multiple of
/// its own type's alignment requirement — the bucket's alignment is at
/// least the type's, both are powers of two, and offsets only ever land
/// on bucket-alignment boundaries.
pub proof fn lemma_entries_aligned(v: DynVec, b: int, k: int)
    requires
        v.wf(),
        0 <= b < DYN_VEC_ALIGN_POW_COUNT,
        0 <= k < v.metas@[b]@.len(),
    ensures
        v.metas@[b]@[k].offset as nat % v.metas@[b]@[k].vtable.align as nat == 0,
{
    let m = v.metas@[b]@[k];
    assert(v.entry_wf(b, k));
    lemma_bucket_align_values();
    assert(m.vtable.align as nat <= bucket_align_spec(b));
    crate::math::lemma_pow2_divides(m.vtable.align as nat, bucket_align_spec(b));
    crate::math::lemma_mod_trans(
        m.offset as nat,
        bucket_align_spec(b),
        m.vtable.align as nat,
    );
}

/// A mutable borrow of one element of a vector.
fn vec_index_mut<T>(v: &mut Vec<T>, i: usize) -> (r: &mut T)
    requires
        i < old(v).len(),
    ensures
        *r == old(v)@[i as int],
        final(v)@ == old(v)@.update(i as int, *final(r)),
{
    &mut v[i]
}

} // verus!
