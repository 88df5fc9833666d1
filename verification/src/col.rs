//! Arena columns: one growable, append-only byte buffer per alignment
//! bucket.
//!
//! A column owns a single contiguous buffer.  Values are appended at the
//! write cursor, which then advances by the value's size rounded up to the
//! bucket's alignment, so every write in a column starts on an alignment
//! boundary.  When room runs out the buffer grows to the next power of two
//! that fits, copying everything written so far; a full drain resets the
//! cursor to zero while the buffer and its capacity are retained for
//! reuse.  Capacity never shrinks.

use crate::math::is_pow2;
use crate::math::lemma_next_pow2_bounds;
use crate::math::lemma_pow2_divides;
use crate::math::lemma_round_up_add;
use crate::math::lemma_round_up_le;
use crate::math::lemma_round_up_props;
use crate::math::lemma_subrange_of_equal_prefix;
use crate::math::next_pow2;
use crate::math::next_pow2_exec;
use crate::math::round_up;
use vstd::prelude::*;

verus! {

/// The capacity a column grows to when `size` more bytes must fit after
/// `cursor`: the next power of two at or above what is needed, but never
/// below the bucket's alignment.
pub open spec fn grow_target(cursor: nat, size: nat, align: nat) -> nat {
    next_pow2(
        if cursor + size >= align {
            (cursor + size) as nat
        } else {
            align
        },
    )
}

/// One alignment bucket's byte arena.
pub struct AlignedCol {
    /// The backing buffer; its length is the column's capacity.
    pub buf: Vec<u8>,
    /// How many bytes at the front of `buf` are in use, counting
    /// alignment padding.  The next value is written here.
    pub cursor: usize,
}

impl AlignedCol {
    /// The column's capacity in bytes.
    pub open spec fn capacity(self) -> nat {
        self.buf@.len()
    }

    /// The bytes of the backing buffer.
    pub open spec fn data(self) -> Seq<u8> {
        self.buf@
    }

    /// The column's invariant for a bucket of alignment `align`: the
    /// cursor stays inside the buffer and on an alignment boundary, and
    /// the capacity, once a buffer exists, is a power of two, a multiple
    /// of the alignment, and at least one alignment's worth of bytes.
    pub open spec fn wf(self, align: nat) -> bool
        recommends
            align >= 1,
    {
        &&& self.cursor as nat <= self.capacity()
        &&& self.cursor as nat % align == 0
        &&& (self.capacity() == 0 || (is_pow2(self.capacity()) && self.capacity() % align == 0
            && self.capacity() >= align))
    }

    /// A fresh column: no buffer, nothing written.
    pub fn new() -> (c: AlignedCol)
        ensures
            c.capacity() == 0,
            c.cursor == 0,
            forall|a: nat| a >= 1 ==> c.wf(a),
    {
        let c = AlignedCol { buf: Vec::new(), cursor: 0 };
        proof {
            assert forall|a: nat| a >= 1 implies c.wf(a) by {
                assert(0nat % a == 0);
            }
        }
        c
    }

    /// Make room for `size` more bytes at the cursor.  If the remaining
    /// space suffices nothing changes; otherwise a new buffer of the next
    /// fitting power-of-two size is allocated and everything written so
    /// far is carried over.  Growth therefore at least doubles the
    /// capacity, which keeps the copying cost amortized constant per push.
    pub fn allocate_space_for(&mut self, size: usize, align: usize)
        requires
            old(self).wf(align as nat),
            1 <= align,
            is_pow2(align as nat),
            old(self).cursor + size <= usize::MAX / 2,
            align <= usize::MAX / 2,
        ensures
            final(self).wf(align as nat),
            final(self).cursor == old(self).cursor,
            final(self).capacity() >= old(self).cursor + size,
            final(self).capacity() >= old(self).capacity(),
            final(self).data().subrange(0, old(self).cursor as int) == old(self).data().subrange(
                0,
                old(self).cursor as int,
            ),
            size <= old(self).capacity() - old(self).cursor as nat ==> *final(self) == *old(self),
            size > old(self).capacity() - old(self).cursor as nat ==> final(self).capacity()
                == grow_target(old(self).cursor as nat, size as nat, align as nat),
    {
        let remaining = self.buf.len() - self.cursor;
        if size <= remaining {
            return ;
        }
        let needed = self.cursor + size;
        let target = if needed >= align {
            needed
        } else {
            align
        };
        let new_cap = next_pow2_exec(target);
        proof {
            lemma_next_pow2_bounds(target as nat);
        }
        let mut nb: Vec<u8> = Vec::new();
        let mut i: usize = 0;
        while i < self.cursor
            invariant
                *self == *old(self),
                i <= self.cursor,
                self.cursor as nat <= self.data().len(),
                nb@ == self.data().subrange(0, i as int),
            decreases self.cursor - i,
        {
            let byte = self.buf[i];
            nb.push(byte);
            proof {
                assert(nb@ =~= self.data().subrange(0, i + 1));
            }
            i += 1;
        }
        while nb.len() < new_cap
            invariant
                *self == *old(self),
                self.cursor as nat <= nb@.len() <= new_cap,
                nb@.subrange(0, self.cursor as int) == self.data().subrange(
                    0,
                    self.cursor as int,
                ),
            decreases new_cap - nb@.len(),
        {
            proof {
                assert(nb@.push(0u8).subrange(0, self.cursor as int) =~= nb@.subrange(
                    0,
                    self.cursor as int,
                ));
            }
            nb.push(0u8);
        }
        self.buf = nb;
        proof {
            lemma_pow2_divides(align as nat, new_cap as nat);
        }
    }

    /// Append a value's bytes.  Returns the byte offset the value was
    /// written at; the cursor advances by the size rounded up to the
    /// bucket's alignment, so the next write starts aligned again.  A
    /// zero-sized value stores no bytes, returns offset 0 and leaves the
    /// column untouched.
    pub fn push(&mut self, bytes: &[u8], align: usize) -> (offset: usize)
        requires
            1 <= align,
            old(self).wf(align as nat),
            is_pow2(align as nat),
            old(self).cursor + bytes@.len() <= usize::MAX / 2,
            align <= usize::MAX / 2,
        ensures
            final(self).wf(align as nat),
            bytes@.len() == 0 ==> offset == 0 && *final(self) == *old(self),
            bytes@.len() > 0 ==> {
                &&& offset == old(self).cursor
                &&& final(self).cursor as nat == old(self).cursor as nat + round_up(
                    bytes@.len(),
                    align as nat,
                )
                &&& final(self).data().subrange(offset as int, offset + bytes@.len()) == bytes@
                &&& final(self).data().subrange(0, old(self).cursor as int) == old(
                    self,
                ).data().subrange(0, old(self).cursor as int)
                &&& final(self).capacity() == (if bytes@.len() <= old(self).capacity() - old(
                    self,
                ).cursor as nat {
                    old(self).capacity()
                } else {
                    grow_target(old(self).cursor as nat, bytes@.len(), align as nat)
                })
                &&& final(self).capacity() >= old(self).capacity()
            },
    {
        let size = bytes.len();
        if size == 0 {
            return 0;
        }
        self.allocate_space_for(size, align);
        let ghost mid = *self;
        let off = self.cursor;
        let mut j: usize = 0;
        while j < size
            invariant
                j <= size,
                size == bytes@.len(),
                off == mid.cursor,
                self.cursor == mid.cursor,
                self.data().len() == mid.data().len(),
                off + size <= self.data().len(),
                off + size <= usize::MAX / 2,
                self.data().subrange(0, off as int) == mid.data().subrange(0, off as int),
                self.data().subrange(off as int, off + j) == bytes@.subrange(0, j as int),
            decreases size - j,
        {
            let ghost before = self.data();
            self.buf.set(off + j, bytes[j]);
            proof {
                assert(self.data().subrange(0, off as int) =~= before.subrange(0, off as int));
                assert(self.data().subrange(off as int, off + j + 1) =~= bytes@.subrange(
                    0,
                    j + 1,
                ));
            }
            j += 1;
        }
        proof {
            assert(bytes@.subrange(0, size as int) =~= bytes@);
        }
        let diff = size % align;
        proof {
            lemma_round_up_props(size as nat, align as nat);
            lemma_round_up_add(off as nat, size as nat, align as nat);
            lemma_round_up_props((off + size) as nat, align as nat);
            lemma_round_up_le((off + size) as nat, align as nat, self.capacity());
            assert(off as nat + round_up(size as nat, align as nat) == round_up(
                (off + size) as nat,
                align as nat,
            ));
        }
        self.cursor = self.cursor + size;
        if diff != 0 {
            self.cursor = self.cursor + (align - diff);
        }
        proof {
            lemma_subrange_of_equal_prefix(
                self.data(),
                old(self).data(),
                old(self).cursor as int,
                0,
                old(self).cursor as int,
            );
        }
        off
    }

    /// Overwrite bytes that were already written, in place.  Used to hand
    /// out mutable access to a resident value; nothing about the column's
    /// shape changes, only the bytes inside the given range.
    pub fn write_at(&mut self, offset: usize, bytes: &[u8])
        requires
            offset + bytes@.len() <= old(self).cursor,
            old(self).cursor as nat <= old(self).capacity(),
        ensures
            final(self).cursor == old(self).cursor,
            final(self).capacity() == old(self).capacity(),
            final(self).data().subrange(offset as int, offset + bytes@.len()) == bytes@,
            final(self).data().subrange(0, offset as int) == old(self).data().subrange(
                0,
                offset as int,
            ),
            final(self).data().subrange(
                offset + bytes@.len(),
                old(self).capacity() as int,
            ) == old(self).data().subrange(offset + bytes@.len(), old(self).capacity() as int),
    {
        let size = bytes.len();
        let ghost pre = *self;
        let mut j: usize = 0;
        while j < size
            invariant
                j <= size,
                size == bytes@.len(),
                offset + size <= pre.cursor,
                pre.cursor as nat <= pre.capacity(),
                self.cursor == pre.cursor,
                self.data().len() == pre.data().len(),
                self.data().subrange(0, offset as int) == pre.data().subrange(0, offset as int),
                self.data().subrange(offset as int, offset + j) == bytes@.subrange(0, j as int),
                self.data().subrange(offset + size, pre.capacity() as int) == pre.data().subrange(
                    offset + size,
                    pre.capacity() as int,
                ),
            decreases size - j,
        {
            let ghost before = self.data();
            self.buf.set(offset + j, bytes[j]);
            proof {
                assert(self.data().subrange(0, offset as int) =~= before.subrange(
                    0,
                    offset as int,
                ));
                assert(self.data().subrange(offset as int, offset + j + 1) =~= bytes@.subrange(
                    0,
                    j + 1,
                ));
                assert(self.data().subrange(offset + size, pre.capacity() as int)
                    =~= before.subrange(offset + size, pre.capacity() as int));
            }
            j += 1;
        }
        proof {
            assert(bytes@.subrange(0, size as int) =~= bytes@);
        }
    }

    /// Reset the write cursor for reuse after a full drain.  The buffer
    /// and its capacity are retained; reclaimed space is only ever reused
    /// by future pushes.
    pub fn reset(&mut self)
        ensures
            final(self).cursor == 0,
            final(self).buf == old(self).buf,
    {
        self.cursor = 0;
    }
}

} // verus!
