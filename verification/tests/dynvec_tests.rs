use dyn_vec::BaseVtable;
use dyn_vec::BaseVtableConstructor;
use dyn_vec::DynVec;
use dyn_vec::get_index_and_align;

fn vt(id: u64, size: usize, align: usize) -> BaseVtable {
    BaseVtableConstructor::vtable_for(id, size, align).expect("supported alignment")
}

#[test]
fn classifier_picks_smallest_bucket() {
    assert_eq!(get_index_and_align(1), (0, 4));
    assert_eq!(get_index_and_align(2), (0, 4));
    assert_eq!(get_index_and_align(4), (0, 4));
    assert_eq!(get_index_and_align(5), (1, 16));
    assert_eq!(get_index_and_align(8), (1, 16));
    assert_eq!(get_index_and_align(16), (1, 16));
    assert_eq!(get_index_and_align(17), (2, 64));
    assert_eq!(get_index_and_align(64), (2, 64));
    assert_eq!(get_index_and_align(65), (3, 256));
    assert_eq!(get_index_and_align(256), (3, 256));
    assert_eq!(get_index_and_align(257), (4, 1024));
    assert_eq!(get_index_and_align(1024), (4, 1024));
}

#[test]
fn alignment_ceiling_refuses_construction() {
    assert!(BaseVtableConstructor::vtable_for(1, 8, 2048).is_none());
    assert!(BaseVtableConstructor::vtable_for(1, 8, 4096).is_none());
    assert!(BaseVtableConstructor::vtable_for(1, 8, 0).is_none());
    assert!(BaseVtableConstructor::vtable_for(1, 8, 3).is_none());
    assert!(BaseVtableConstructor::vtable_for(1, 8, 1536).is_none());
    let ok = BaseVtableConstructor::vtable_for(9, 8, 1024).expect("1024 is the ceiling");
    assert_eq!(ok.id, 9);
    assert_eq!(ok.size, 8);
    assert_eq!(ok.align, 1024);
}

#[test]
fn iter_yields_bucket_major_not_insertion_order() {
    let mut v = DynVec::new();
    let int_vt = vt(1, 4, 4);
    let wide_vt = vt(2, 16, 16);
    let pattern: [u8; 16] = [0xAB; 16];
    v.push(int_vt, &5u32.to_ne_bytes());
    v.push(wide_vt, &pattern);
    v.push(int_vt, &7u32.to_ne_bytes());
    let items = v.iter();
    assert_eq!(items.len(), 3);
    // both 4-byte-aligned values come before the 16-byte-aligned one
    assert_eq!(items[0].vtable.id, 1);
    assert_eq!(items[0].bytes, 5u32.to_ne_bytes().to_vec());
    assert_eq!(items[1].vtable.id, 1);
    assert_eq!(items[1].bytes, 7u32.to_ne_bytes().to_vec());
    assert_eq!(items[2].vtable.id, 2);
    assert_eq!(items[2].bytes, pattern.to_vec());
}

#[test]
fn iter_yields_every_push_grouped() {
    let mut v = DynVec::new();
    let a = vt(1, 4, 4);
    let b = vt(2, 8, 8);
    let c = vt(3, 2, 64);
    let mut pushed: usize = 0;
    for i in 0..4u32 {
        v.push(a, &i.to_ne_bytes());
        pushed += 1;
    }
    for i in 0..3u64 {
        v.push(b, &i.to_ne_bytes());
        pushed += 1;
    }
    for i in 0..2u16 {
        v.push(c, &i.to_ne_bytes());
        pushed += 1;
    }
    let items = v.iter();
    assert_eq!(items.len(), pushed);
    // bucket 0 (align 4), then bucket 1 (aligns 5..=16), then bucket 2
    for i in 0..4usize {
        assert_eq!(items[i].vtable.id, 1);
        assert_eq!(items[i].bytes, (i as u32).to_ne_bytes().to_vec());
    }
    for i in 0..3usize {
        assert_eq!(items[4 + i].vtable.id, 2);
        assert_eq!(items[4 + i].bytes, (i as u64).to_ne_bytes().to_vec());
    }
    for i in 0..2usize {
        assert_eq!(items[7 + i].vtable.id, 3);
        assert_eq!(items[7 + i].bytes, (i as u16).to_ne_bytes().to_vec());
    }
}

#[test]
fn drain_yields_all_then_store_is_empty_capacity_kept() {
    let mut v = DynVec::new();
    let a = vt(1, 4, 4);
    let b = vt(2, 16, 16);
    for i in 0..5u32 {
        v.push(a, &i.to_ne_bytes());
    }
    v.push(b, &[0x5A; 16]);
    let caps_before: Vec<usize> = v.cols.iter().map(|c| c.buf.len()).collect();
    let handles = v.drain();
    assert_eq!(handles.len(), 6);
    for (i, h) in handles.iter().take(5).enumerate() {
        assert_eq!(h.vtable.id, 1);
        assert_eq!(h.bytes, (i as u32).to_ne_bytes().to_vec());
    }
    assert_eq!(handles[5].vtable.id, 2);
    assert_eq!(handles[5].bytes, vec![0x5A; 16]);
    assert_eq!(v.iter().len(), 0);
    let caps_after: Vec<usize> = v.cols.iter().map(|c| c.buf.len()).collect();
    assert_eq!(caps_before, caps_after);
    for c in v.cols.iter() {
        assert_eq!(c.cursor, 0);
    }
}

#[test]
fn drain_one_handle_per_value_finalized_once() {
    let mut v = DynVec::new();
    let a = vt(10, 4, 4);
    let b = vt(20, 16, 16);
    let n: usize = 3;
    let m: usize = 2;
    for i in 0..n {
        v.push(a, &(i as u32).to_ne_bytes());
    }
    for _ in 0..m {
        v.push(b, &[1u8; 16]);
    }
    let mut count_a: usize = 0;
    let mut count_b: usize = 0;
    for h in v.drain() {
        // each handle is finalized exactly once: destruct consumes it
        let (table, bytes) = h.destruct();
        if table.id == 10 {
            assert_eq!(bytes.len(), 4);
            count_a += 1;
        } else {
            assert_eq!(table.id, 20);
            assert_eq!(bytes.len(), 16);
            count_b += 1;
        }
    }
    assert_eq!(count_a, n);
    assert_eq!(count_b, m);
}

#[test]
fn columns_are_reused_after_drain() {
    let mut v = DynVec::new();
    let a = vt(1, 4, 4);
    v.push(a, &1u32.to_ne_bytes());
    v.push(a, &2u32.to_ne_bytes());
    v.drain();
    v.push(a, &9u32.to_ne_bytes());
    let items = v.iter();
    assert_eq!(items.len(), 1);
    assert_eq!(items[0].bytes, 9u32.to_ne_bytes().to_vec());
    assert_eq!(v.cols[0].cursor, 4);
}

#[test]
fn growth_doubles_and_preserves_bytes() {
    let mut v = DynVec::new();
    let a = vt(1, 4, 4);
    v.push(a, &1u32.to_ne_bytes());
    assert_eq!(v.cols[0].buf.len(), 4);
    v.push(a, &2u32.to_ne_bytes());
    assert_eq!(v.cols[0].buf.len(), 8);
    v.push(a, &3u32.to_ne_bytes());
    // crossing 8 bytes grows once, to the next power of two of 12
    assert_eq!(v.cols[0].buf.len(), 16);
    v.push(a, &4u32.to_ne_bytes());
    // no crossing: capacity unchanged
    assert_eq!(v.cols[0].buf.len(), 16);
    let items = v.iter();
    assert_eq!(items.len(), 4);
    for i in 0..4usize {
        assert_eq!(items[i].bytes, ((i + 1) as u32).to_ne_bytes().to_vec());
    }
}

#[test]
fn zero_sized_values_count_but_store_no_bytes() {
    let mut v = DynVec::new();
    let z = vt(7, 0, 1);
    let k: usize = 4;
    for _ in 0..k {
        v.push(z, &[]);
    }
    let items = v.iter();
    assert_eq!(items.len(), k);
    for e in items.iter() {
        assert_eq!(e.vtable.id, 7);
        assert!(e.bytes.is_empty());
    }
    // no bytes were stored in any column
    for c in v.cols.iter() {
        assert_eq!(c.cursor, 0);
        assert_eq!(c.buf.len(), 0);
    }
    let handles = v.drain();
    assert_eq!(handles.len(), k);
}

#[test]
fn write_entry_rewrites_one_value_in_place() {
    let mut v = DynVec::new();
    let a = vt(1, 4, 4);
    v.push(a, &1u32.to_ne_bytes());
    v.push(a, &2u32.to_ne_bytes());
    v.write_entry(0, 1, &99u32.to_ne_bytes());
    let items = v.iter();
    assert_eq!(items[0].bytes, 1u32.to_ne_bytes().to_vec());
    assert_eq!(items[1].bytes, 99u32.to_ne_bytes().to_vec());
}

#[test]
fn borrowed_entry_access() {
    let mut v = DynVec::new();
    let a = vt(4, 4, 4);
    let b = vt(5, 8, 8);
    v.push(a, &11u32.to_ne_bytes());
    v.push(b, &22u64.to_ne_bytes());
    v.push(a, &33u32.to_ne_bytes());
    assert_eq!(v.bucket_len(0), 2);
    assert_eq!(v.bucket_len(1), 1);
    assert_eq!(v.bucket_len(2), 0);
    assert_eq!(v.entry_vtable(0, 1).id, 4);
    assert_eq!(v.entry_vtable(1, 0).id, 5);
    assert_eq!(v.entry_bytes(0, 0), &11u32.to_ne_bytes()[..]);
    assert_eq!(v.entry_bytes(0, 1), &33u32.to_ne_bytes()[..]);
    assert_eq!(v.entry_bytes(1, 0), &22u64.to_ne_bytes()[..]);
}

#[test]
fn drain_handle_views_and_destruct() {
    let mut v = DynVec::new();
    let a = vt(3, 4, 4);
    v.push(a, &42u32.to_ne_bytes());
    let mut handles = v.drain();
    assert_eq!(handles.len(), 1);
    let h = &mut handles[0];
    assert_eq!(h.as_dyn_ref(), &42u32.to_ne_bytes()[..]);
    h.as_mut_dyn_ref()[0] = h.as_mut_dyn_ref()[0].wrapping_add(1);
    let expected = {
        let mut e = 42u32.to_ne_bytes();
        e[0] = e[0].wrapping_add(1);
        e
    };
    let h = handles.pop().unwrap();
    let (table, bytes) = h.destruct();
    assert_eq!(table.id, 3);
    assert_eq!(bytes, expected.to_vec());
}
