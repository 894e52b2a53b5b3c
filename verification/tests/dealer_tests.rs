use md_ml::fake_circuit::FakeCircuit;
use md_ml::fake_gate::FakeGate;
use md_ml::dealer::FakeParty;
use md_ml::fake_gtz_gate::FakeGtzGate;
use md_ml::share::{Spdz2kShare32, Spdz2kShare64};

#[test]
fn key_is_the_sum_of_key_shares() {
    let party = FakeParty::<Spdz2kShare32, 2>::from_key_shares(vec![3u32, u32::MAX]);
    assert_eq!(party.key_share(0), 3);
    assert_eq!(party.key_share(1), u32::MAX);
    let mut p = party;
    let files = p.take_pending();
    // Each file starts with the party's key share as a 64-bit element.
    assert_eq!(files[0], vec![3u8, 0, 0, 0, 0, 0, 0, 0]);
    assert_eq!(files[1], vec![255u8, 255, 255, 255, 0, 0, 0, 0]);
}

#[test]
fn shares_of_a_value_under_a_given_mask() {
    // key = 2 + 5 = 7; masked value = 1 * 2^32 + 9
    let party = FakeParty::<Spdz2kShare32, 2>::from_key_shares(vec![2u32, 5]);
    let s = party.generate_all_parties_shares_from(9u32, 1u32, &vec![100u64], &vec![1000u64]);
    let masked: u64 = (1u64 << 32) + 9;
    assert_eq!(s.value_shares[0], 100);
    assert_eq!(s.value_shares[0].wrapping_add(s.value_shares[1]), masked);
    assert_eq!(s.mac_shares[0], 1000);
    assert_eq!(s.mac_shares[0].wrapping_add(s.mac_shares[1]), masked.wrapping_mul(7));
}

#[test]
fn vector_shares_reconstruct() {
    let party = FakeParty::<Spdz2kShare64, 2>::from_key_shares(vec![11u64, 13]);
    let s = party.generate_all_parties_shares_vec_from(&[4u64, 6], &[0u64, 2], vec![vec![5u128, 7]], vec![vec![1u128, 1]]);
    let key: u128 = 24;
    let m1: u128 = (2u128 << 64) + 6;
    assert_eq!(s.value_shares[0][0].wrapping_add(s.value_shares[1][0]), 4);
    assert_eq!(s.value_shares[0][1].wrapping_add(s.value_shares[1][1]), m1);
    assert_eq!(s.mac_shares[0][1].wrapping_add(s.mac_shares[1][1]), m1.wrapping_mul(key));
}

#[test]
fn random_dealing_reconstructs_low_bits() {
    let party = FakeParty::<Spdz2kShare64, 3>::new();
    let values = [42u64, u64::MAX];
    let s = party.generate_all_parties_shares_vec(&values);
    for idx in 0..2 {
        let sum = s.value_shares.iter().fold(0u128, |acc, row| acc.wrapping_add(row[idx]));
        assert_eq!(sum as u64, values[idx]);
    }
    let one = party.generate_all_parties_shares(7u64);
    let sum = one.value_shares.iter().fold(0u128, |acc, v| acc.wrapping_add(*v));
    assert_eq!(sum as u64, 7);
}

#[test]
fn writes_append_encodings() {
    let mut party = FakeParty::<Spdz2kShare32, 2>::from_key_shares(vec![0u32, 0]);
    party.take_pending();
    party.write_shares_to_ith_party(&[1u64], 1);
    party.write_clear_to_ith_party(&[2u32], 0);
    party.write_clear_to_all_parties(&[3u32]);
    let files = party.take_pending();
    assert_eq!(files[0], vec![2u8, 0, 0, 0, 3, 0, 0, 0, 0, 0, 0, 0]);
    assert_eq!(files[1], vec![1u8, 0, 0, 0, 0, 0, 0, 0, 3, 0, 0, 0, 0, 0, 0, 0]);
}

#[test]
fn boolean_shares_exclusive_or_to_the_value() {
    let x = 0xdead_beef_u64;
    let sh = FakeGtzGate::<Spdz2kShare64, 3>::generate_boolean_shares(x);
    assert_eq!(sh.len(), 3);
    assert_eq!(sh[0] ^ sh[1] ^ sh[2], x);
    let one = FakeGtzGate::<Spdz2kShare64, 1>::generate_boolean_shares(x);
    assert_eq!(one, vec![x]);
}

#[test]
fn dealer_circuit_derives_masks_from_inputs() {
    let mut party = FakeParty::<Spdz2kShare32, 2>::new();
    let mut fake = FakeCircuit::<Spdz2kShare32, 2>::new();
    let x = fake.input(0, 2, 1);
    let y = fake.input(1, 2, 1);
    let s = fake.add(x, y);
    let d = fake.subtract(x, y);
    let c = fake.add_constant(d, 7u32);
    fake.add_endpoint(s);
    fake.add_endpoint(c);
    fake.run_offline(&mut party);
    for i in 0..2 {
        for e in 0..2 {
            let xs = fake.gate(x).lambda_shr()[i][e];
            let ys = fake.gate(y).lambda_shr()[i][e];
            assert_eq!(fake.gate(s).lambda_shr()[i][e], xs.wrapping_add(ys));
            assert_eq!(fake.gate(d).lambda_shr()[i][e], xs.wrapping_sub(ys));
            assert_eq!(fake.gate(c).lambda_shr()[i][e], xs.wrapping_sub(ys));
        }
    }
    for e in 0..2 {
        let diff = fake.gate(x).lambda_clear()[e].wrapping_sub(fake.gate(y).lambda_clear()[e]);
        assert_eq!(fake.gate(d).lambda_clear()[e], diff);
        assert_eq!(fake.gate(c).lambda_clear()[e], diff);
    }
}

#[test]
fn dealer_files_start_with_key_shares() {
    let mut party = FakeParty::<Spdz2kShare32, 3>::new();
    let shares: Vec<u32> = (0..3).map(|i| party.key_share(i)).collect();
    let files = party.take_pending();
    assert_eq!(files.len(), 3);
    for i in 0..3 {
        let mut expected = shares[i].to_le_bytes().to_vec();
        expected.extend_from_slice(&[0u8; 4]);
        assert_eq!(files[i], expected);
    }
}

#[test]
fn dealer_add_gate_mask_is_the_sum_of_input_masks() {
    let mut party = FakeParty::<Spdz2kShare64, 2>::new();
    let mut fake = FakeCircuit::<Spdz2kShare64, 2>::new();
    let x = fake.input(0, 1, 3);
    let y = fake.input(1, 1, 3);
    let s = fake.add(x, y);
    let m = fake.element_multiply(s, x);
    fake.add_endpoint(m);
    fake.run_offline(&mut party);
    assert_eq!(fake.gate(s).lambda_clear().len(), 3);
    for e in 0..3 {
        let sum = fake.gate(x).lambda_clear()[e].wrapping_add(fake.gate(y).lambda_clear()[e]);
        assert_eq!(fake.gate(s).lambda_clear()[e], sum);
    }
}

#[test]
fn dealer_comparison_shares_the_input_mask() {
    let mut party = FakeParty::<Spdz2kShare64, 2>::new();
    let mut fake = FakeCircuit::<Spdz2kShare64, 2>::new();
    let x = fake.input(0, 2, 2);
    let g = fake.gtz(x);
    fake.add_endpoint(g);
    fake.run_offline(&mut party);
    let files = party.take_pending();
    // key (16 bytes); then the input: owner's mask (16 bytes each element),
    // value shares, MAC shares; then the comparison: value shares, MAC
    // shares, and 4 boolean shares of 8 bytes.
    let input_len = |i: usize| if i == 0 { 4 * 16 } else { 0 } + 2 * 4 * 16;
    for i in 0..2 {
        assert_eq!(files[i].len(), 16 + input_len(i) + 2 * 4 * 16 + 4 * 8);
    }
    let lambda_x = fake.gate(x).lambda_clear().clone();
    for e in 0..4 {
        let at = |i: usize| {
            let start = 16 + input_len(i) + 2 * 4 * 16 + 8 * e;
            u64::from_le_bytes(files[i][start..start + 8].try_into().unwrap())
        };
        assert_eq!(at(0) ^ at(1), lambda_x[e]);
    }
}

#[test]
fn dealer_with_no_parties_writes_no_files() {
    let mut party = FakeParty::<Spdz2kShare64, 0>::new();
    assert!(party.take_pending().is_empty());
}
