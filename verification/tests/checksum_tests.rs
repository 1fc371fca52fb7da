//! The additive checksum: exact values, determinism, and insensitivity to
//! chunk boundaries.

use sfshare::checksum::{checksum_extend, CHECKSUM_MOD};

fn fold_chunks(chunks: &[&[u8]]) -> u64 {
    let mut c = 0u64;
    for chunk in chunks {
        c = checksum_extend(c, chunk);
    }
    c
}

#[test]
fn checksum_exact_small_values() {
    assert_eq!(checksum_extend(0, &[]), 0);
    assert_eq!(checksum_extend(0, &[1, 2, 3]), 6);
    assert_eq!(checksum_extend(0, &[255, 255]), 510);
    assert_eq!(checksum_extend(40, &[2]), 42);
}

#[test]
fn checksum_wraps_at_modulus() {
    assert_eq!(CHECKSUM_MOD, 2147483647);
    assert_eq!(checksum_extend(CHECKSUM_MOD - 1, &[1]), 0);
    assert_eq!(checksum_extend(CHECKSUM_MOD - 1, &[2]), 1);
    assert_eq!(checksum_extend(CHECKSUM_MOD - 1, &[0]), CHECKSUM_MOD - 1);
}

#[test]
fn checksum_chunk_boundary_invariant() {
    // a fixed pseudo-random byte sequence
    let mut data = Vec::with_capacity(5000);
    let mut x: u32 = 0x12345678;
    for _ in 0..5000 {
        x = x.wrapping_mul(1103515245).wrapping_add(12345);
        data.push((x >> 16) as u8);
    }

    let whole = checksum_extend(0, &data);
    let by_1300 = {
        let mut c = 0u64;
        let mut off = 0;
        while off < data.len() {
            let end = (off + 1300).min(data.len());
            c = checksum_extend(c, &data[off..end]);
            off = end;
        }
        c
    };
    let uneven = fold_chunks(&[&data[..1], &data[1..2500], &data[2500..2500], &data[2500..]]);
    let halves = fold_chunks(&[&data[..2500], &data[2500..]]);

    assert_eq!(by_1300, whole);
    assert_eq!(uneven, whole);
    assert_eq!(halves, whole);
}

#[test]
fn checksum_deterministic() {
    let data: Vec<u8> = (0..=255).collect();
    assert_eq!(checksum_extend(17, &data), checksum_extend(17, &data));
    // sum 0..=255 is 32640
    assert_eq!(checksum_extend(0, &data), 32640);
}

#[test]
fn checksum_value_sensitive() {
    // a changed byte value changes the checksum (the sum is blind to byte
    // order, though: it is an integrity hint, not a digest)
    assert_eq!(checksum_extend(0, &[1, 2]), checksum_extend(0, &[2, 1]));
    assert_ne!(checksum_extend(0, &[1, 2]), checksum_extend(0, &[1, 3]));
}
