use md_ml::bits::{get_byte_bit, pack_bits, unpack_bits};
use md_ml::networking::{other_party, which_port};
use md_ml::share::{copy_elems, slice_as_bytes, vec_from_bytes, widen, widen_all, ShareElement, Spdz2kShare, Spdz2kShare32, Spdz2kShare64};
use md_ml::timer::Timer;

#[test]
fn remove_upper_bits_keeps_low_k_bits_32() {
    let v: u64 = 0x1234_5678_9abc_def0;
    assert_eq!(Spdz2kShare32::remove_upper_bits(v), 0x9abc_def0);
}

#[test]
fn remove_upper_bits_keeps_low_k_bits_64() {
    let v: u128 = 0x0011_2233_4455_6677_8899_aabb_ccdd_eeff;
    assert_eq!(Spdz2kShare64::remove_upper_bits(v), 0x8899_aabb_ccdd_eeff);
}

#[test]
fn remove_upper_bits_inplace_every_element() {
    let mut v: Vec<u128> = vec![(1u128 << 64) + 5, 7];
    Spdz2kShare64::remove_upper_bits_inplace(&mut v);
    assert_eq!(v, vec![5u128, 7]);
}

#[test]
fn wrapping_arithmetic_u32() {
    assert_eq!(<u32 as ShareElement>::wrapping_add(u32::MAX, 2), 1);
    assert_eq!(<u32 as ShareElement>::wrapping_sub(0, 1), u32::MAX);
    assert_eq!(<u32 as ShareElement>::wrapping_mul(0x8000_0000, 2), 0);
}

#[test]
fn shifts_and_bits() {
    assert_eq!(<u64 as ShareElement>::shr(0x100, 4), 0x10);
    assert_eq!(<u64 as ShareElement>::shl(0x10, 4), 0x100);
    assert!(<u64 as ShareElement>::get_bit(0b100, 2));
    assert!(!<u64 as ShareElement>::get_bit(0b100, 1));
    assert_eq!(<u32 as ShareElement>::bitxor(0b1100, 0b1010), 0b0110);
    assert_eq!(<u128 as ShareElement>::bit_count(), 128);
    assert_eq!(<u32 as ShareElement>::byte_size(), 4);
}

#[test]
fn widen_zero_extends_and_narrows() {
    assert_eq!(widen::<u32, u64>(u32::MAX), 0xffff_ffffu64);
    assert_eq!(widen::<u128, u64>((7u128 << 64) + 9), 9u64);
    assert_eq!(widen_all::<u64, u128>(&[1u64, u64::MAX]), vec![1u128, u64::MAX as u128]);
}

#[test]
fn bytes_round_trip() {
    let v = vec![1u64, 0x0102_0304_0506_0708, u64::MAX];
    let bytes = slice_as_bytes(&v);
    assert_eq!(bytes.len(), 24);
    assert_eq!(&bytes[8..16], &[8u8, 7, 6, 5, 4, 3, 2, 1]);
    let back: Vec<u64> = vec_from_bytes(&bytes);
    assert_eq!(back, v);
    assert_eq!(<u32 as ShareElement>::from_le_bytes(&[1, 0, 0, 1]), 0x0100_0001);
    assert_eq!(<u32 as ShareElement>::to_le_bytes_vec(0x0100_0001), vec![1u8, 0, 0, 1]);
    assert_eq!(copy_elems(&[3u32, 4]), vec![3u32, 4]);
}

#[test]
fn random_elements_fill_the_vector() {
    let mut v = vec![0u128; 4];
    md_ml::share::fill_random(&mut v);
    assert_eq!(v.len(), 4);
    // Four zero 128-bit draws are as good as impossible.
    assert!(v.iter().any(|&x| x != 0));
}

#[test]
fn bit_packing() {
    let bits = vec![true, false, true, true, false, false, false, false, true];
    let packed = pack_bits(&bits);
    assert_eq!(packed, vec![0b0000_1101u8, 0b0000_0001]);
    assert!(get_byte_bit(&packed, 0, 2));
    assert!(!get_byte_bit(&packed, 0, 1));
    assert_eq!(unpack_bits(&packed, 9), bits);
}

#[test]
fn ports_of_party_pairs() {
    assert_eq!(which_port(5050, 0, 1, 2), 5051);
    assert_eq!(which_port(5050, 1, 0, 2), 5052);
    assert_eq!(which_port(5000, 2, 1, 3), 5007);
    assert_eq!(other_party(0), 1);
    assert_eq!(other_party(1), 0);
}

#[test]
fn timer_measures_a_call() {
    let mut t = Timer::new();
    assert_eq!(t.elapsed_ms(), 0);
    let ms = t.benchmark(|| {
        let start = std::time::Instant::now();
        while start.elapsed().as_millis() < 20 {}
    });
    assert!(ms >= 20);
    assert_eq!(t.elapsed_ms(), ms);
    let mut u = Timer::default();
    u.start();
    assert_eq!(u.elapsed_ms(), 0);
    u.stop();
}
