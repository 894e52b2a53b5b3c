use md_ml::beaver::{elem_delta_share, elem_mac_share_exec, matmul_delta_share, matmul_mac_share_exec};
use md_ml::dealer::FakeParty;
use md_ml::fake_elem_multiply_gate::FakeElemMultiplyGate;
use md_ml::fake_multiply_gate::FakeMultiplyGate;
use md_ml::linear_algebra::{matrix_elem_multiply, matrix_multiply};

fn low32(v: u64) -> u64 {
    v & 0xffff_ffff
}

#[test]
fn dealt_matrix_product_opens_to_the_product_plus_mask() {
    let party = FakeParty::<md_ml::share::Spdz2kShare32, 2>::from_key_shares(vec![12345u32, 678u32]);
    let key: u64 = 12345 + 678;
    let (rows, mid, cols) = (2usize, 3usize, 2usize);
    let gate = FakeMultiplyGate::<md_ml::share::Spdz2kShare32, 2>::new(0, 1, rows, mid, cols);
    let lx = vec![0u32; rows * mid];
    let ly = vec![0u32; mid * cols];
    let d = gate.deal(&lx, &ly, &party);
    // opened operands: tx = x + a, ty = y + b in Z_{2^32}
    let x: Vec<u32> = vec![1, 2, 3, 4, 5, 6];
    let y: Vec<u32> = vec![7, 8, 9, 10, 11, u32::MAX];
    let tx: Vec<u64> = (0..rows * mid).map(|e| x[e].wrapping_add(d.a_clear[e]) as u64).collect();
    let ty: Vec<u64> = (0..mid * cols).map(|e| y[e].wrapping_add(d.b_clear[e]) as u64).collect();
    let txy = matrix_multiply(&tx, &ty, rows, mid, cols);
    let mut shares = Vec::new();
    let mut macs = Vec::new();
    for p in 0..2usize {
        shares.push(matmul_delta_share(
            &d.a.value_shares[p], &d.b.value_shares[p], &d.c.value_shares[p], &d.lambda.value_shares[p],
            &tx, &ty, &txy, rows, mid, cols, p,
        ));
        macs.push(matmul_mac_share_exec(
            &d.a.mac_shares[p], &d.b.mac_shares[p], &d.c.mac_shares[p], &d.lambda.mac_shares[p],
            &tx, &ty, &txy, party.key_share(p) as u64, rows, mid, cols,
        ));
    }
    let xy = matrix_multiply(&x, &y, rows, mid, cols);
    for t in 0..rows * cols {
        let sum = shares[0][t].wrapping_add(shares[1][t]);
        assert_eq!(low32(sum), xy[t].wrapping_add(d.lambda_clear[t]) as u64);
        let mac = macs[0][t].wrapping_add(macs[1][t]);
        assert_eq!(mac, key.wrapping_mul(sum));
    }
}

#[test]
fn dealt_element_product_opens_to_the_product_plus_mask() {
    let party = FakeParty::<md_ml::share::Spdz2kShare64, 2>::from_key_shares(vec![99u64, u64::MAX]);
    let key: u128 = 99 + u64::MAX as u128;
    let gate = FakeElemMultiplyGate::<md_ml::share::Spdz2kShare64, 2>::new(0, 1, 2, 2);
    let lx = vec![0u64; 4];
    let ly = vec![0u64; 4];
    let d = gate.deal(&lx, &ly, &party);
    let x: Vec<u64> = vec![3, u64::MAX, 5, 1 << 40];
    let y: Vec<u64> = vec![4, 2, u64::MAX, 1 << 30];
    let tx: Vec<u128> = (0..4).map(|e| x[e].wrapping_add(d.a_clear[e]) as u128).collect();
    let ty: Vec<u128> = (0..4).map(|e| y[e].wrapping_add(d.b_clear[e]) as u128).collect();
    let txy = matrix_elem_multiply(&tx, &ty);
    let mut shares = Vec::new();
    let mut macs = Vec::new();
    for p in 0..2usize {
        shares.push(elem_delta_share(
            &d.a.value_shares[p], &d.b.value_shares[p], &d.c.value_shares[p], &d.lambda.value_shares[p],
            &tx, &ty, &txy, p,
        ));
        macs.push(elem_mac_share_exec(
            &d.a.mac_shares[p], &d.b.mac_shares[p], &d.c.mac_shares[p], &d.lambda.mac_shares[p],
            &tx, &ty, &txy, party.key_share(p) as u128,
        ));
    }
    for t in 0..4 {
        let sum = shares[0][t].wrapping_add(shares[1][t]);
        assert_eq!(sum as u64, x[t].wrapping_mul(y[t]).wrapping_add(d.lambda_clear[t]));
        let mac = macs[0][t].wrapping_add(macs[1][t]);
        assert_eq!(mac, key.wrapping_mul(sum));
    }
}

#[test]
fn vector_split_matches_the_split_of_each_value() {
    let party = FakeParty::<md_ml::share::Spdz2kShare32, 3>::from_key_shares(vec![1u32, 2, 3]);
    let values = [10u32, 20];
    let masks = [5u32, 6];
    let rv = vec![vec![100u64, 200], vec![300u64, 400]];
    let rm = vec![vec![7u64, 8], vec![9u64, 11]];
    let all = party.generate_all_parties_shares_vec_from(&values, &masks, rv.clone(), rm.clone());
    for idx in 0..2 {
        let one = party.generate_all_parties_shares_from(values[idx], masks[idx], &vec![rv[0][idx], rv[1][idx]], &vec![rm[0][idx], rm[1][idx]]);
        for i in 0..3 {
            assert_eq!(one.value_shares[i], all.value_shares[i][idx]);
            assert_eq!(one.mac_shares[i], all.mac_shares[i][idx]);
        }
    }
}
