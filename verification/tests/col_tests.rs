use dyn_vec::AlignedCol;
use dyn_vec::math::is_pow2_exec;
use dyn_vec::math::next_pow2_exec;
use dyn_vec::math::round_up_exec;

#[test]
fn next_pow2_values() {
    assert_eq!(next_pow2_exec(0), 1);
    assert_eq!(next_pow2_exec(1), 1);
    assert_eq!(next_pow2_exec(2), 2);
    assert_eq!(next_pow2_exec(3), 4);
    assert_eq!(next_pow2_exec(4), 4);
    assert_eq!(next_pow2_exec(5), 8);
    assert_eq!(next_pow2_exec(9), 16);
    assert_eq!(next_pow2_exec(1024), 1024);
    assert_eq!(next_pow2_exec(1025), 2048);
}

#[test]
fn round_up_values() {
    assert_eq!(round_up_exec(0, 4), 0);
    assert_eq!(round_up_exec(1, 4), 4);
    assert_eq!(round_up_exec(4, 4), 4);
    assert_eq!(round_up_exec(5, 4), 8);
    assert_eq!(round_up_exec(17, 16), 32);
}

#[test]
fn pow2_recognition() {
    assert!(is_pow2_exec(1));
    assert!(is_pow2_exec(2));
    assert!(is_pow2_exec(1024));
    assert!(!is_pow2_exec(0));
    assert!(!is_pow2_exec(3));
    assert!(!is_pow2_exec(12));
    assert!(!is_pow2_exec(1536));
}

#[test]
fn column_offsets_and_cursor_rounding() {
    let mut c = AlignedCol::new();
    assert_eq!(c.buf.len(), 0);
    assert_eq!(c.cursor, 0);
    let off0 = c.push(&[1, 2, 3], 4);
    assert_eq!(off0, 0);
    // 3 bytes advance the cursor to the next multiple of 4
    assert_eq!(c.cursor, 4);
    assert_eq!(c.buf.len(), 4);
    let off1 = c.push(&[9, 8, 7, 6, 5], 4);
    assert_eq!(off1, 4);
    assert_eq!(c.cursor, 12);
    // growth in one step to the next power of two of 4 + 5
    assert_eq!(c.buf.len(), 16);
    // earlier bytes survived the growth
    assert_eq!(&c.buf[0..3], &[1, 2, 3]);
    assert_eq!(&c.buf[4..9], &[9, 8, 7, 6, 5]);
}

#[test]
fn column_zero_sized_push_is_a_no_op() {
    let mut c = AlignedCol::new();
    c.push(&[1, 2, 3, 4], 4);
    let before_cursor = c.cursor;
    let before_cap = c.buf.len();
    let off = c.push(&[], 4);
    assert_eq!(off, 0);
    assert_eq!(c.cursor, before_cursor);
    assert_eq!(c.buf.len(), before_cap);
}

#[test]
fn column_reset_keeps_buffer() {
    let mut c = AlignedCol::new();
    c.push(&[1; 10], 16);
    assert_eq!(c.buf.len(), 16);
    c.reset();
    assert_eq!(c.cursor, 0);
    assert_eq!(c.buf.len(), 16);
    // space is reused by later pushes
    let off = c.push(&[2; 4], 16);
    assert_eq!(off, 0);
    assert_eq!(c.buf.len(), 16);
}
