use md_ml::fixed_point::{truncate_clear, truncate_clear_vec, truncate_clear_vec_inplace, FRACTION_BITS, TRUNCATE_VALUE};
use md_ml::linear_algebra::{
    matrix_add, matrix_add_assign, matrix_add_constant, matrix_elem_multiply, matrix_multiply,
    matrix_multiply_naive, matrix_scalar, matrix_scalar_assign, matrix_subtract, matrix_subtract_assign,
};

#[test]
fn matrix_add_wraps() {
    assert_eq!(matrix_add(&[1u32, u32::MAX], &[2u32, 3]), vec![3u32, 2]);
}

#[test]
fn matrix_add_takes_the_shorter_length() {
    assert_eq!(matrix_add(&[1u64, 2, 3], &[10u64, 20]), vec![11u64, 22]);
}

#[test]
fn matrix_add_assign_in_place() {
    let mut x = vec![1u64, 2, 3];
    matrix_add_assign(&mut x, &[10u64, 20, 30]);
    assert_eq!(x, vec![11u64, 22, 33]);
}

#[test]
fn matrix_subtract_wraps() {
    assert_eq!(matrix_subtract(&[1u64, 5], &[2u64, 3]), vec![u64::MAX, 2]);
    let mut x = vec![0u32, 7];
    matrix_subtract_assign(&mut x, &[1u32, 7]);
    assert_eq!(x, vec![u32::MAX, 0]);
}

#[test]
fn matrix_add_constant_and_scalar() {
    assert_eq!(matrix_add_constant(&[1u64, 2], 5), vec![6u64, 7]);
    assert_eq!(matrix_scalar(&[3u128, 4], 5), vec![15u128, 20]);
    let mut x = vec![1u32 << 31, 3];
    matrix_scalar_assign(&mut x, 2);
    assert_eq!(x, vec![0u32, 6]);
}

#[test]
fn matrix_elem_multiply_wraps() {
    assert_eq!(matrix_elem_multiply(&[2u64, 1 << 63], &[3u64, 2]), vec![6u64, 0]);
}

#[test]
fn matrix_multiply_u64_through_nalgebra() {
    // [1 2 3; 4 5 6] * [7 8; 9 10; 11 12] = [58 64; 139 154]
    let a = [1u64, 2, 3, 4, 5, 6];
    let b = [7u64, 8, 9, 10, 11, 12];
    assert_eq!(matrix_multiply(&a, &b, 2, 3, 2), vec![58u64, 64, 139, 154]);
}

#[test]
fn matrix_multiply_u64_wraps() {
    let a = [u64::MAX, 2];
    let b = [3u64, 5];
    // (2^64 - 1) * 3 + 2 * 5 = 7 (mod 2^64)
    assert_eq!(matrix_multiply(&a, &b, 1, 2, 1), vec![7u64]);
}

#[test]
fn matrix_multiply_u128_and_u32_rows() {
    let a = [1u128, 2, 3, 4];
    let b = [5u128, 6, 7, 8];
    assert_eq!(matrix_multiply(&a, &b, 2, 2, 2), vec![19u128, 22, 43, 50]);
    let a32 = [1u32, 2, 3, 4];
    let b32 = [5u32, 6, 7, 8];
    assert_eq!(matrix_multiply(&a32, &b32, 2, 2, 2), vec![19u32, 22, 43, 50]);
    assert_eq!(matrix_multiply_naive(&a32, &b32, 2, 2, 2), vec![19u32, 22, 43, 50]);
}

#[test]
fn matrix_multiply_dot_product_shape() {
    let a = vec![1u64; 8];
    let b = vec![1u64; 8];
    assert_eq!(matrix_multiply(&a, &b, 1, 8, 1), vec![8u64]);
}

#[test]
fn truncation_drops_fraction_bits() {
    assert_eq!(FRACTION_BITS, 16);
    assert_eq!(TRUNCATE_VALUE, 65536);
    // 1.5 * 1.5 in fixed point: 98304 * 98304 = 2.25 * 2^32
    let prod = 98304u64 * 98304;
    assert_eq!(truncate_clear(prod), 147456u64);
    assert_eq!(truncate_clear_vec(&[65536u32, 65535]), vec![1u32, 0]);
    let mut v = vec![131072u128, 3];
    truncate_clear_vec_inplace(&mut v);
    assert_eq!(v, vec![2u128, 0]);
}

#[test]
fn matrix_multiply_naive_reads_leading_parts() {
    // Only the first 4 elements of each slice take part in a 2x2 by 2x2 product.
    let a = [1u32, 2, 3, 4, 99, 99];
    let b = [5u32, 6, 7, 8, 77];
    assert_eq!(matrix_multiply_naive(&a, &b, 2, 2, 2), vec![19u32, 22, 43, 50]);
    let a128 = [2u128, 3, 1000];
    let b128 = [4u128, 5];
    assert_eq!(matrix_multiply(&a128, &b128, 1, 2, 1), vec![23u128]);
}

#[test]
fn matrix_multiply_u64_agrees_with_row_by_row() {
    let a: Vec<u64> = (0..12u64).map(|v| v.wrapping_mul(0x9e37_79b9_7f4a_7c15).wrapping_add(v << 60)).collect();
    let b: Vec<u64> = (0..20u64).map(|v| u64::MAX - v * 0x1234_5678_9abc).collect();
    assert_eq!(matrix_multiply(&a, &b, 3, 4, 5), matrix_multiply_naive(&a, &b, 3, 4, 5));
    assert_eq!(matrix_multiply(&a[..0], &b[..0], 3, 0, 0), Vec::<u64>::new());
}
